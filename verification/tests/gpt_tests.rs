use std::io::Cursor;

use gpt::partition_types;
use gpt::GptConfig;
use vf2_boot::block::MemDisk;
use vf2_boot::part::{find_efi_partition, GptFault};

const DISK_BYTES: usize = 1024 * 1024;

/// Builds a GPT-partitioned disk image whose listed partitions carry the
/// given types, one partition per entry, in order.
fn gpt_image(types: &[partition_types::Type]) -> Vec<u8> {
    let device = Cursor::new(vec![0u8; DISK_BYTES]);
    let mut disk = GptConfig::new()
        .writable(true)
        .create_from_device(device, None)
        .expect("fresh table");
    for (i, t) in types.iter().enumerate() {
        disk.add_partition(&format!("part{}", i), 64 * 1024, t.clone(), 0, None)
            .expect("partition added");
    }
    let device = disk.write().expect("table written");
    device.into_inner()
}

#[test]
fn efi_in_third_entry_found() {
    let image = gpt_image(&[
        partition_types::LINUX_FS,
        partition_types::LINUX_FS,
        partition_types::EFI,
        partition_types::LINUX_FS,
    ]);
    let mut disk = MemDisk::from_image(&image);
    let p = find_efi_partition(&mut disk).expect("EFI partition present");
    assert_eq!(p.index, 3);
    assert_eq!(p.name, "part2");
    assert!(p.end_lba > p.start_lba);
    assert_eq!(
        p.part_type_guid,
        [
            0xc1, 0x2a, 0x73, 0x28, 0xf8, 0x1f, 0x11, 0xd2, 0xba, 0x4b, 0x00, 0xa0, 0xc9, 0x3e,
            0xc9, 0x3b
        ]
    );
    assert!(p.start_lba >= 34);
}

#[test]
fn first_of_two_efi_entries_wins() {
    let image = gpt_image(&[
        partition_types::LINUX_FS,
        partition_types::EFI,
        partition_types::EFI,
    ]);
    let mut disk = MemDisk::from_image(&image);
    let p = find_efi_partition(&mut disk).expect("EFI partition present");
    assert_eq!(p.index, 2);
}

#[test]
fn no_efi_entry_is_told_apart() {
    let image = gpt_image(&[partition_types::LINUX_FS, partition_types::LINUX_FS]);
    let mut disk = MemDisk::from_image(&image);
    assert_eq!(find_efi_partition(&mut disk), Err(GptFault::NoEfiEntry));
}

#[test]
fn unpartitioned_disk_rejected() {
    let mut disk = MemDisk::new(vec![vec![0u8; 512]; 40]);
    assert_eq!(find_efi_partition(&mut disk), Err(GptFault::TableRejected));
}

#[test]
fn unsupported_entry_size_rejected() {
    // A header carrying the magic but declaring 256-byte entries is
    // turned away before the parser can see it.
    let mut image = vec![0u8; 40 * 512];
    image[512..520].copy_from_slice(b"EFI PART");
    image[512 + 84] = 0;
    image[512 + 85] = 1; // entry size 256
    let mut disk = MemDisk::from_image(&image);
    assert_eq!(find_efi_partition(&mut disk), Err(GptFault::TableRejected));
}

#[test]
fn partition_start_lba_is_reported() {
    let image = gpt_image(&[partition_types::EFI]);
    // Read the entry's first LBA straight from the partition array at
    // LBA 2 to hold the library's answer to the on-disk bytes.
    let entry = &image[2 * 512..2 * 512 + 128];
    let mut first_lba_bytes = [0u8; 8];
    first_lba_bytes.copy_from_slice(&entry[32..40]);
    let first_lba = u64::from_le_bytes(first_lba_bytes);
    let mut disk = MemDisk::from_image(&image);
    let p = find_efi_partition(&mut disk).expect("EFI partition present");
    assert_eq!(p.start_lba, first_lba);
    assert_eq!(p.index, 1);
}
