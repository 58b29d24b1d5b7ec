use vf2_boot::block::MemDisk;
use vf2_boot::fat::{BpbSector, DirEntry, FileName, Volume};

fn put_le16(s: &mut [u8], off: usize, v: u16) {
    s[off] = (v & 0xff) as u8;
    s[off + 1] = (v >> 8) as u8;
}

fn put_le32(s: &mut [u8], off: usize, v: u32) {
    s[off] = (v & 0xff) as u8;
    s[off + 1] = ((v >> 8) & 0xff) as u8;
    s[off + 2] = ((v >> 16) & 0xff) as u8;
    s[off + 3] = ((v >> 24) & 0xff) as u8;
}

fn bpb_sector(reserved: u16, fats: u8, spf: u32, root_cluster: u32, spc: u8) -> Vec<u8> {
    let mut s = vec![0u8; 512];
    put_le16(&mut s, 11, 512);
    s[13] = spc;
    put_le16(&mut s, 14, reserved);
    s[16] = fats;
    put_le32(&mut s, 32, 4096);
    put_le32(&mut s, 36, spf);
    put_le32(&mut s, 44, root_cluster);
    s[510] = 0x55;
    s[511] = 0xaa;
    s
}

fn dir_entry(name: &[u8; 11], cluster: u32, size: u32) -> [u8; 32] {
    let mut e = [0u8; 32];
    e[0..11].copy_from_slice(name);
    let hi = (cluster >> 16) as u16;
    let lo = (cluster & 0xffff) as u16;
    put_le16(&mut e, 20, hi);
    put_le16(&mut e, 26, lo);
    put_le32(&mut e, 28, size);
    e
}

#[test]
fn bpb_fields_round_trip() {
    let s = bpb_sector(32, 2, 100, 2, 8);
    let b = BpbSector::deserialize(&s).expect("valid signature");
    assert_eq!(b.bytes_per_sector, 512);
    assert_eq!(b.sectors_per_cluster, 8);
    assert_eq!(b.reserved_sectors, 32);
    assert_eq!(b.fats, 2);
    assert_eq!(b.total_sectors_32, 4096);
    assert_eq!(b.sectors_per_fat_32, 100);
    assert_eq!(b.root_dir_first_cluster, 2);
}

#[test]
fn bpb_address_math() {
    // reserved=32, fats=2, spf=100, root cluster 2.
    let s = bpb_sector(32, 2, 100, 2, 8);
    let b = BpbSector::deserialize(&s).unwrap();
    assert_eq!(b.root_sector(), 232);
    assert_eq!(b.cluster_to_sector(2), 232);
    assert_eq!(b.cluster_to_sector(3), 240);
}

#[test]
fn bpb_bad_signature_rejected() {
    let mut s = bpb_sector(32, 2, 100, 2, 8);
    s[511] = 0;
    assert!(BpbSector::deserialize(&s).is_none());
}

#[test]
fn file_name_kernel_bin() {
    let f = FileName::from_slice(b"kernel.bin").expect("grammatical");
    assert_eq!(
        f.bytes().as_slice(),
        &[b'K', b'E', b'R', b'N', b'E', b'L', 0x20, 0x20, b'B', b'I', b'N']
    );
}

#[test]
fn file_name_a_b() {
    let f = FileName::from_slice(b"a.b").expect("grammatical");
    assert_eq!(
        f.bytes().as_slice(),
        &[b'A', 0x20, 0x20, 0x20, 0x20, 0x20, 0x20, 0x20, b'B', 0x20, 0x20]
    );
}

#[test]
fn file_name_leading_dot_rejected() {
    assert!(FileName::from_slice(b".hidden").is_none());
}

#[test]
fn file_name_too_long_rejected() {
    assert!(FileName::from_slice(b"toolongname.bin").is_none());
}

#[test]
fn file_name_full_width_accepted() {
    // Eight base characters, a dot, three extension characters.
    let f = FileName::from_slice(b"abcdefgh.bin").expect("grammatical");
    assert_eq!(
        f.bytes().as_slice(),
        &[b'A', b'B', b'C', b'D', b'E', b'F', b'G', b'H', b'B', b'I', b'N']
    );
}

#[test]
fn file_name_thirteen_bytes_rejected() {
    assert!(FileName::from_slice(b"abcdefghi.bin").is_none());
}

#[test]
fn file_name_nine_base_bytes_rejected() {
    // Without a dot after the eighth character the name has no valid split.
    assert!(FileName::from_slice(b"kernel12bin").is_none());
}

#[test]
fn file_name_empty_rejected() {
    assert!(FileName::from_slice(b"").is_none());
}

#[test]
fn file_name_case_folds() {
    let a = FileName::from_slice(b"KeRnEl.BiN").unwrap();
    let b = FileName::from_slice(b"kernel.bin").unwrap();
    assert_eq!(a.bytes().as_slice(), b.bytes().as_slice());
}

#[test]
fn file_name_invalid_symbol_rejected() {
    assert!(FileName::from_slice(b"ker nel.bin").is_none());
    assert!(FileName::from_slice(b"a.b.c").is_none());
}

#[test]
fn dir_entry_fields() {
    let e = dir_entry(b"KERNEL  BIN", 0x0003_0005, 600);
    let d = DirEntry::deserialize(&e, 0).expect("present slot");
    assert_eq!(d.name.as_slice(), b"KERNEL  BIN");
    assert_eq!(d.cluster_h, 3);
    assert_eq!(d.cluster_l, 5);
    assert_eq!(d.size, 600);
    assert_eq!(d.cluster(), 0x0003_0005);
    assert!(d.is_file());
}

#[test]
fn dir_entry_zero_slot_absent() {
    let e = [0u8; 32];
    assert!(DirEntry::deserialize(&e, 0).is_none());
}

#[test]
fn dir_entry_zero_size_not_a_file() {
    let e = dir_entry(b"EMPTY      ", 3, 0);
    let d = DirEntry::deserialize(&e, 0).expect("present slot");
    assert!(!d.is_file());
}

fn test_volume_disk() -> (Volume, MemDisk) {
    // Volume at LBA 0: 1 reserved sector, 1 FAT of 1 sector, so the root
    // directory starts at volume sector 2; 2 sectors per cluster.
    let bpb = bpb_sector(1, 1, 1, 2, 2);
    let fat = vec![0u8; 512];
    let mut dir = vec![0u8; 512];
    // Slot 1: an empty file, skipped. Slot 2: the kernel at cluster 3.
    dir[32..64].copy_from_slice(&dir_entry(b"EMPTY   TXT", 3, 0));
    dir[64..96].copy_from_slice(&dir_entry(b"KERNEL  BIN", 3, 600));
    // A second match later in the directory must lose to the first.
    dir[96..128].copy_from_slice(&dir_entry(b"KERNEL  BIN", 4, 999));
    let dir2 = vec![0u8; 512];
    let mut data1 = vec![0u8; 512];
    let mut data2 = vec![0u8; 512];
    for i in 0..512 {
        data1[i] = (i % 251) as u8;
        data2[i] = ((i * 3) % 253) as u8;
    }
    let disk = MemDisk::new(vec![bpb.clone(), fat, dir, dir2, data1, data2]);
    let mut volume = Volume::new(0);
    assert!(volume.init_bpb(&bpb));
    (volume, disk)
}

#[test]
fn find_resolves_name() {
    let (volume, mut disk) = test_volume_disk();
    // Cluster 3 sits one cluster past the root: sector 2 + 1*2 = 4.
    let (lba, size) = volume.find(b"kernel.bin", &mut disk).expect("present");
    assert_eq!(lba, 4);
    assert_eq!(size, 600);
}

#[test]
fn find_first_match_wins() {
    let (volume, mut disk) = test_volume_disk();
    let (lba, size) = volume.find(b"KERNEL.BIN", &mut disk).expect("present");
    // The slot at cluster 3 comes first in directory order.
    assert_eq!((lba, size), (4, 600));
}

#[test]
fn find_rejects_invalid_name() {
    let (volume, mut disk) = test_volume_disk();
    assert!(volume.find(b".hidden", &mut disk).is_none());
}

#[test]
fn find_misses_absent_name() {
    let (volume, mut disk) = test_volume_disk();
    assert!(volume.find(b"other.bin", &mut disk).is_none());
}

#[test]
fn find_skips_empty_files() {
    let (volume, mut disk) = test_volume_disk();
    assert!(volume.find(b"empty.txt", &mut disk).is_none());
}

#[test]
fn distinct_names_store_distinct_bytes() {
    let a = FileName::from_slice(b"a.b").unwrap();
    let b = FileName::from_slice(b"ab").unwrap();
    assert_ne!(a.bytes().as_slice(), b.bytes().as_slice());
}

#[test]
fn trailing_dot_collides_with_plain_base() {
    // "ab." and "ab" store the same 11 bytes: the one collision the
    // grammar admits, which is why equal stored names pin the input only
    // among inputs not ending in a dot.
    let a = FileName::from_slice(b"ab.").unwrap();
    let b = FileName::from_slice(b"ab").unwrap();
    assert_eq!(a.bytes().as_slice(), b.bytes().as_slice());
}
