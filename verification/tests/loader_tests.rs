use vf2_boot::block::MemDisk;
use vf2_boot::console::Console;
use vf2_boot::fat::Volume;
use vf2_boot::loader::{blocks_for, init_fat, load_image, load_kernel};
use vf2_boot::serial::MemTransport;

fn put_le16(s: &mut [u8], off: usize, v: u16) {
    s[off] = (v & 0xff) as u8;
    s[off + 1] = (v >> 8) as u8;
}

fn put_le32(s: &mut [u8], off: usize, v: u32) {
    s[off] = (v & 0xff) as u8;
    s[off + 1] = ((v >> 8) & 0xff) as u8;
    s[off + 2] = ((v >> 16) & 0xff) as u8;
    s[off + 3] = ((v >> 24) & 0xff) as u8;
}

fn bpb_sector(reserved: u16, fats: u8, spf: u32, root_cluster: u32, spc: u8) -> Vec<u8> {
    let mut s = vec![0u8; 512];
    put_le16(&mut s, 11, 512);
    s[13] = spc;
    put_le16(&mut s, 14, reserved);
    s[16] = fats;
    put_le32(&mut s, 32, 4096);
    put_le32(&mut s, 36, spf);
    put_le32(&mut s, 44, root_cluster);
    s[510] = 0x55;
    s[511] = 0xaa;
    s
}

fn dir_entry(name: &[u8; 11], cluster: u32, size: u32) -> [u8; 32] {
    let mut e = [0u8; 32];
    e[0..11].copy_from_slice(name);
    put_le16(&mut e, 20, (cluster >> 16) as u16);
    put_le16(&mut e, 26, (cluster & 0xffff) as u16);
    put_le32(&mut e, 28, size);
    e
}

fn patterned(seed: usize) -> Vec<u8> {
    let mut s = vec![0u8; 512];
    for i in 0..512 {
        s[i] = ((i * 7 + seed) % 256) as u8;
    }
    s
}

#[test]
fn block_count_rounds_up() {
    assert_eq!(blocks_for(0), 0);
    assert_eq!(blocks_for(1), 1);
    assert_eq!(blocks_for(512), 1);
    assert_eq!(blocks_for(513), 2);
    assert_eq!(blocks_for(600), 2);
    assert_eq!(blocks_for(1024), 2);
}

#[test]
fn image_of_600_bytes_spans_two_sectors() {
    let sec0 = patterned(1);
    let sec1 = patterned(2);
    let mut disk = MemDisk::new(vec![sec0.clone(), sec1.clone()]);
    let img = load_image(&mut disk, 0, 600);
    // Two reads, 1024 bytes, the sectors in order.
    assert_eq!(img.len(), 1024);
    assert_eq!(&img[..512], sec0.as_slice());
    assert_eq!(&img[512..], sec1.as_slice());
}

#[test]
fn image_read_starts_at_given_lba() {
    let sectors = vec![patterned(0), patterned(1), patterned(2), patterned(3)];
    let mut disk = MemDisk::new(sectors.clone());
    let img = load_image(&mut disk, 2, 512);
    assert_eq!(img.as_slice(), sectors[2].as_slice());
}

#[test]
fn init_fat_reads_boot_sector() {
    let bpb = bpb_sector(32, 2, 100, 2, 8);
    let mut disk = MemDisk::new(vec![vec![0u8; 512], vec![0u8; 512], bpb]);
    let volume = init_fat(&mut disk, 2).expect("valid volume");
    assert_eq!(volume.start_lba, 2);
    assert_eq!(volume.bpb.root_sector(), 232);
}

#[test]
fn init_fat_rejects_bad_signature() {
    let mut disk = MemDisk::new(vec![vec![0u8; 512]]);
    assert!(init_fat(&mut disk, 0).is_none());
}

#[test]
fn kernel_loads_end_to_end() {
    // Volume at LBA 0: root directory at sector 2, two sectors per
    // cluster, kernel of 600 bytes at cluster 3 (sectors 4 and 5).
    let bpb = bpb_sector(1, 1, 1, 2, 2);
    let fat = vec![0u8; 512];
    let mut dir = vec![0u8; 512];
    dir[0..32].copy_from_slice(&dir_entry(b"KERNEL  BIN", 3, 600));
    let dir2 = vec![0u8; 512];
    let data1 = patterned(11);
    let data2 = patterned(22);
    let mut disk = MemDisk::new(vec![
        bpb.clone(),
        fat,
        dir,
        dir2,
        data1.clone(),
        data2.clone(),
    ]);
    let volume = init_fat(&mut disk, 0).expect("valid volume");
    let mut console = Console::new();
    // A mistyped name first; the loader re-prompts and then succeeds.
    let mut t = MemTransport::new(b"wrong.bin\nkernel.bin\n".to_vec());
    let img = load_kernel(&mut console, &mut t, &mut disk, &volume).expect("kernel found");
    assert_eq!(img.len(), 1024);
    assert_eq!(&img[..512], data1.as_slice());
    assert_eq!(&img[512..], data2.as_slice());
}

#[test]
fn loader_gives_up_when_input_ends() {
    let bpb = bpb_sector(1, 1, 1, 2, 2);
    let mut disk = MemDisk::new(vec![bpb.clone(), vec![0u8; 512], vec![0u8; 512]]);
    let volume = init_fat(&mut disk, 0).expect("valid volume");
    let mut console = Console::new();
    let mut t = MemTransport::new(b"missing.bin\n".to_vec());
    assert!(load_kernel(&mut console, &mut t, &mut disk, &volume).is_none());
}

#[test]
fn loader_skips_over_long_names() {
    let bpb = bpb_sector(1, 1, 1, 2, 2);
    let mut dir = vec![0u8; 512];
    dir[0..32].copy_from_slice(&dir_entry(b"KERNEL  BIN", 3, 10));
    let data = patterned(5);
    let mut disk = MemDisk::new(vec![
        bpb,
        vec![0u8; 512],
        dir,
        vec![0u8; 512],
        data.clone(),
    ]);
    let volume = init_fat(&mut disk, 0).expect("valid volume");
    let mut console = Console::new();
    // Thirteen bytes overflow an 8.3 name; the loader re-prompts.
    let mut t = MemTransport::new(b"abcdefghi.bin\nkernel.bin\n".to_vec());
    let img = load_kernel(&mut console, &mut t, &mut disk, &volume).expect("kernel found");
    assert_eq!(img.len(), 512);
    assert_eq!(img.as_slice(), data.as_slice());
}

#[test]
fn file_at_root_cluster_resolves_to_root_sector() {
    // A file stored at the root directory's own cluster resolves to the
    // root sector itself.
    let bpb = bpb_sector(1, 1, 1, 2, 1);
    let mut dir = vec![0u8; 512];
    dir[0..32].copy_from_slice(&dir_entry(b"A       BIN", 2, 1));
    let mut disk = MemDisk::new(vec![bpb, vec![0u8; 512], dir]);
    let volume = init_fat(&mut disk, 0).expect("valid volume");
    assert_eq!(volume.bpb.root_sector(), 2);
    let (lba, size) = volume.find(b"a.bin", &mut disk).expect("present");
    assert_eq!((lba, size), (2, 1));
}

#[test]
fn not_found_names_say_so() {
    let bpb = bpb_sector(1, 1, 1, 2, 2);
    let mut disk = MemDisk::new(vec![bpb, vec![0u8; 512], vec![0u8; 512], vec![0u8; 512]]);
    let volume = init_fat(&mut disk, 0).expect("valid volume");
    let mut console = Console::new();
    let mut t = MemTransport::new(b"missing.bin\n".to_vec());
    assert!(load_kernel(&mut console, &mut t, &mut disk, &volume).is_none());
    let mut expected = b">> missing.bin\n".to_vec();
    expected.extend_from_slice(b"Can not find kernel, please re-enter.\n");
    expected.extend_from_slice(b">> ");
    assert_eq!(t.sent().as_slice(), expected.as_slice());
}

#[test]
fn invalid_names_say_so() {
    let bpb = bpb_sector(1, 1, 1, 2, 2);
    let mut disk = MemDisk::new(vec![bpb, vec![0u8; 512], vec![0u8; 512], vec![0u8; 512]]);
    let volume = init_fat(&mut disk, 0).expect("valid volume");
    let mut console = Console::new();
    let mut t = MemTransport::new(b".hidden\n".to_vec());
    assert!(load_kernel(&mut console, &mut t, &mut disk, &volume).is_none());
    let sent = String::from_utf8_lossy(t.sent()).into_owned();
    assert!(sent.contains("The file name entered is invalid!"));
}

#[test]
fn too_long_names_say_so() {
    let bpb = bpb_sector(1, 1, 1, 2, 2);
    let mut disk = MemDisk::new(vec![bpb, vec![0u8; 512], vec![0u8; 512], vec![0u8; 512]]);
    let volume = init_fat(&mut disk, 0).expect("valid volume");
    let mut console = Console::new();
    let mut t = MemTransport::new(b"averylongkernel\n".to_vec());
    assert!(load_kernel(&mut console, &mut t, &mut disk, &volume).is_none());
    let sent = String::from_utf8_lossy(t.sent()).into_owned();
    assert!(sent.contains("File name is too long!"));
}

#[test]
fn overflowing_lines_say_so_and_reprompt() {
    // Seventeen characters overflow the 16-byte line; the loader says so
    // and the next, valid line still resolves.
    let bpb = bpb_sector(1, 1, 1, 2, 2);
    let mut dir = vec![0u8; 512];
    dir[0..32].copy_from_slice(&dir_entry(b"KERNEL  BIN", 3, 10));
    let data = patterned(4);
    let mut disk = MemDisk::new(vec![
        bpb,
        vec![0u8; 512],
        dir,
        vec![0u8; 512],
        data.clone(),
    ]);
    let volume = init_fat(&mut disk, 0).expect("valid volume");
    let mut console = Console::new();
    let mut input = vec![b'a'; 17];
    input.extend_from_slice(b"kernel.bin\n");
    let mut t = MemTransport::new(input);
    let img = load_kernel(&mut console, &mut t, &mut disk, &volume).expect("kernel found");
    assert_eq!(img.as_slice(), data.as_slice());
    let sent = String::from_utf8_lossy(t.sent()).into_owned();
    assert!(sent.contains("Too many characters entered, please re-enter!"));
}
