//! GPT partition discovery: reading the head of the disk, parsing its
//! partition table, and selecting the EFI System Partition among the
//! first four entries.

use vstd::prelude::*;
use crate::block::BlockDevice;

verus! {

/// The fewest sectors the GPT scan reads: the protective MBR, the
/// primary header, and a standard 128-entry partition array at LBA 2.
pub const GPT_SCAN_SECTORS: u64 = 34;

/// The most sectors the scan reads when the header places its entry
/// array further out; a table past this is rejected, as the image must
/// fit in boot memory.
pub const GPT_SCAN_MAX_SECTORS: u64 = 4096;

/// The EFI System Partition type GUID, byte for byte as the parsed
/// (RFC-ordered) form of C12A7328-F81F-11D2-BA4B-00A0C93EC93B.
pub open spec fn efi_guid() -> Seq<u8> {
    seq![
        0xc1u8,
        0x2au8,
        0x73u8,
        0x28u8,
        0xf8u8,
        0x1fu8,
        0x11u8,
        0xd2u8,
        0xbau8,
        0x4bu8,
        0x00u8,
        0xa0u8,
        0xc9u8,
        0x3eu8,
        0xc9u8,
        0x3bu8,
    ]
}

/// The first `n` sectors of the device, as one flat byte string.
pub open spec fn disk_prefix<D: BlockDevice>(d: D, n: int) -> Seq<u8>
    decreases n,
{
    if n <= 0 {
        Seq::empty()
    } else {
        disk_prefix(d, n - 1) + d.sector(n - 1)
    }
}

/// The eight magic bytes "EFI PART" that open a GPT header.
pub open spec fn gpt_sig_at(image: Seq<u8>, off: int) -> bool {
    &&& image[off] == 0x45u8
    &&& image[off + 1] == 0x46u8
    &&& image[off + 2] == 0x49u8
    &&& image[off + 3] == 0x20u8
    &&& image[off + 4] == 0x50u8
    &&& image[off + 5] == 0x41u8
    &&& image[off + 6] == 0x52u8
    &&& image[off + 7] == 0x54u8
}

/// A header candidate at `off` is harmless to the parser: either it does
/// not carry the magic (so it is rejected), or it declares the one
/// partition-entry size the parser takes, 128 bytes.
pub open spec fn entry_size_ok_at(image: Seq<u8>, off: int) -> bool {
    gpt_sig_at(image, off) ==> crate::bytes::le32(image, off + 84) == 128
}

/// Both header locations the parser may select — the primary at the
/// second sector, the fallback in the image's last whole sector — are
/// harmless. Images violating this are rejected before parsing.
pub open spec fn entry_size_supported(image: Seq<u8>) -> bool {
    &&& (image.len() >= 512 + 92 ==> entry_size_ok_at(image, 512))
    &&& (image.len() >= 3 * 512 ==> entry_size_ok_at(
        image,
        ((image.len() - 512) / 512) * 512,
    ))
}

/// How many sectors of the device the scan images: enough to cover the
/// entry array where the primary header carries the magic and places it,
/// never fewer than the standard layout needs, capped by boot memory.
pub open spec fn spec_scan_sectors<D: BlockDevice>(d: D) -> int {
    let hdr = d.sector(1);
    if gpt_sig_at(hdr, 0) {
        let ps = crate::bytes::le64(hdr, 72);
        let arr = (crate::bytes::le32(hdr, 80) + 3) / 4;
        if ps >= GPT_SCAN_MAX_SECTORS {
            GPT_SCAN_MAX_SECTORS as int
        } else {
            let want = ps + arr;
            if want < GPT_SCAN_SECTORS {
                GPT_SCAN_SECTORS as int
            } else if want > GPT_SCAN_MAX_SECTORS {
                GPT_SCAN_MAX_SECTORS as int
            } else {
                want
            }
        }
    } else {
        GPT_SCAN_SECTORS as int
    }
}

/// Why no EFI partition was returned: the table could not be read (bad
/// or unsupported GPT), or it holds no EFI entry among its first four.
#[derive(Clone, Copy, PartialEq, Eq, Structural, Debug)]
pub enum GptFault {
    TableRejected,
    NoEfiEntry,
}

/// What the GPT parser yields on the image bytes: nothing when the table
/// is rejected, else each entry's one-based index, partition type GUID,
/// first and last LBA and name, in index order.
pub uninterp spec fn gpt_entries(image: Seq<u8>) -> Option<
    Seq<(u32, Seq<u8>, u64, u64, Seq<char>)>,
>;

/// The plain view of the listed entries.
pub open spec fn view_parts(v: Seq<(u32, [u8; 16], u64, u64, String)>) -> Seq<
    (u32, Seq<u8>, u64, u64, Seq<char>),
> {
    v.map_values(|e: (u32, [u8; 16], u64, u64, String)| (e.0, e.1@, e.2, e.3, e.4@))
}

/// Relies on gpt::GptConfig::open_from_device and gpt::GptDisk::partitions:
/// parses the GPT held in the image bytes (validating the header magic
/// and CRC32 checksums) and lists each present entry's one-based index,
/// partition type GUID, first and last LBA and name, in index order. The
/// result is a function of the image bytes alone. The parser asserts
/// that the selected header's declared entry size is 128, so the
/// `requires` admits only images whose two header candidates are
/// harmless; the verified caller tests that field first.
#[verifier::external_body]
fn read_gpt_entries(image: &Vec<u8>) -> (r: Option<Vec<(u32, [u8; 16], u64, u64, String)>>)
    requires
        entry_size_supported(image@),
    ensures
        (match r {
            None => gpt_entries(image@) is None,
            Some(v) => gpt_entries(image@) == Some(view_parts(v@)),
        }),
{
    let cursor = std::io::Cursor::new(image.clone());
    let disk = match gpt::GptConfig::new().writable(false).open_from_device(cursor) {
        Ok(d) => d,
        Err(_) => return None,
    };
    let mut out = Vec::new();
    for (idx, p) in disk.partitions().iter() {
        let guid = *p.part_type_guid.guid.as_bytes();
        out.push((*idx, guid, p.first_lba, p.last_lba, p.name.clone()));
    }
    Some(out)
}

/// A partition among the table's first four whose type GUID is the EFI
/// System Partition GUID.
pub open spec fn is_efi_entry(e: (u32, Seq<u8>, u64, u64, Seq<char>)) -> bool {
    1 <= e.0 <= 4 && e.1 == efi_guid()
}

/// The first EFI entry of the listed entries.
pub open spec fn first_efi(entries: Seq<(u32, Seq<u8>, u64, u64, Seq<char>)>) -> Option<
    (u32, Seq<u8>, u64, u64, Seq<char>),
>
    decreases entries.len(),
{
    if entries.len() == 0 {
        None
    } else if is_efi_entry(entries[0]) {
        Some(entries[0])
    } else {
        first_efi(entries.skip(1))
    }
}

/// A partition record as this bootloader consumes it.
#[derive(PartialEq, Eq, Debug)]
pub struct Partition {
    pub index: u32,
    pub part_type_guid: [u8; 16],
    pub start_lba: u64,
    pub end_lba: u64,
    pub name: String,
}

/// Compares a partition type GUID against the EFI System Partition GUID.
pub fn guid_is_efi(g: &[u8; 16]) -> (r: bool)
    ensures
        r == (g@ == efi_guid()),
{
    let ok = g[0] == 0xc1 && g[1] == 0x2a && g[2] == 0x73 && g[3] == 0x28 && g[4] == 0xf8 && g[5]
        == 0x1f && g[6] == 0x11 && g[7] == 0xd2 && g[8] == 0xba && g[9] == 0x4b && g[10] == 0x00
        && g[11] == 0xa0 && g[12] == 0xc9 && g[13] == 0x3e && g[14] == 0xc9 && g[15] == 0x3b;
    proof {
        if ok {
            assert(g@ =~= efi_guid());
        } else {
            if g@ == efi_guid() {
                assert(g@[0] == 0xc1u8);
                assert(g@[1] == 0x2au8);
                assert(g@[2] == 0x73u8);
                assert(g@[3] == 0x28u8);
                assert(g@[4] == 0xf8u8);
                assert(g@[5] == 0x1fu8);
                assert(g@[6] == 0x11u8);
                assert(g@[7] == 0xd2u8);
                assert(g@[8] == 0xbau8);
                assert(g@[9] == 0x4bu8);
                assert(g@[10] == 0x00u8);
                assert(g@[11] == 0xa0u8);
                assert(g@[12] == 0xc9u8);
                assert(g@[13] == 0x3eu8);
                assert(g@[14] == 0xc9u8);
                assert(g@[15] == 0x3bu8);
                assert(false);
            }
        }
    }
    ok
}

/// Whether the bytes at `off` carry the "EFI PART" magic.
fn gpt_magic_at(image: &Vec<u8>, off: usize) -> (r: bool)
    requires
        off + 8 <= image@.len(),
    ensures
        r == gpt_sig_at(image@, off as int),
{
    let s = image.as_slice();
    s[off] == 0x45 && s[off + 1] == 0x46 && s[off + 2] == 0x49 && s[off + 3] == 0x20 && s[off + 4]
        == 0x50 && s[off + 5] == 0x41 && s[off + 6] == 0x52 && s[off + 7] == 0x54
}

/// Whether the header candidate at `off` is harmless: no "EFI PART"
/// magic, or a declared entry size of 128.
fn header_entry_size_ok(image: &Vec<u8>, off: usize) -> (r: bool)
    requires
        off + 92 <= image@.len(),
    ensures
        r == entry_size_ok_at(image@, off as int),
{
    let n = image.len();
    if !gpt_magic_at(image, off) {
        return true;
    }
    crate::bytes::read_le_u32(image.as_slice(), off + 84) == 128
}

/// Reads the head of the disk — the protective MBR, the primary header,
/// and the entry array where the header places it (capped by
/// `GPT_SCAN_MAX_SECTORS`) — parses the GPT, and returns the first of
/// the first four entries whose type GUID is the EFI GUID.
/// `Err(TableRejected)` when the table cannot be read (no valid header,
/// a checksum failure, an entry size this loader does not take, or an
/// entry array past the scan cap); `Err(NoEfiEntry)` when the table is
/// read but no entry matches.
pub fn find_efi_partition<D: BlockDevice>(dev: &mut D) -> (r: Result<Partition, GptFault>)
    ensures
        forall|l: int| #[trigger] final(dev).sector(l) == old(dev).sector(l),
        ({
            let img = disk_prefix(*old(dev), spec_scan_sectors(*old(dev)));
            &&& (!entry_size_supported(img) ==> r == Err::<Partition, GptFault>(
                GptFault::TableRejected,
            ))
            &&& (entry_size_supported(img) ==> (match gpt_entries(img) {
                None => r == Err::<Partition, GptFault>(GptFault::TableRejected),
                Some(es) => (match r {
                    Ok(p) => first_efi(es) == Some(
                        (p.index, p.part_type_guid@, p.start_lba, p.end_lba, p.name@),
                    ),
                    Err(f) => f == GptFault::NoEfiEntry && first_efi(es) is None,
                }),
            }))
        }),
{
    // Size the scan from the primary header's own entry-array placement.
    let mut buf: Vec<u8> = Vec::new();
    dev.read_block(1, &mut buf);
    let scan: u64 = if gpt_magic_at(&buf, 0) {
        let ps = crate::bytes::read_le_u64(buf.as_slice(), 72);
        let np = crate::bytes::read_le_u32(buf.as_slice(), 80);
        if ps >= GPT_SCAN_MAX_SECTORS {
            GPT_SCAN_MAX_SECTORS
        } else {
            let want = ps + (np as u64 + 3) / 4;
            if want < GPT_SCAN_SECTORS {
                GPT_SCAN_SECTORS
            } else if want > GPT_SCAN_MAX_SECTORS {
                GPT_SCAN_MAX_SECTORS
            } else {
                want
            }
        }
    } else {
        GPT_SCAN_SECTORS
    };
    proof {
        assert(scan == spec_scan_sectors(*old(dev)));
    }
    let mut image: Vec<u8> = Vec::new();
    let mut j: u64 = 0;
    while j < scan
        invariant
            j <= scan,
            GPT_SCAN_SECTORS <= scan <= GPT_SCAN_MAX_SECTORS,
            scan == spec_scan_sectors(*old(dev)),
            forall|l: int| #[trigger] dev.sector(l) == old(dev).sector(l),
            image@ == disk_prefix(*old(dev), j as int),
            image@.len() == 512 * j,
        decreases scan - j,
    {
        dev.read_block(j, &mut buf);
        image.extend_from_slice(buf.as_slice());
        proof {
            assert(image@ =~= disk_prefix(*old(dev), j as int + 1));
        }
        j = j + 1;
    }
    // The parser takes only 128-byte partition entries; reject the image
    // before handing it over if either header candidate declares another.
    let last = image.len() - 512;
    if !(header_entry_size_ok(&image, 512) && header_entry_size_ok(&image, last)) {
        return Err(GptFault::TableRejected);
    }
    proof {
        vstd::arithmetic::div_mod::lemma_div_multiples_vanish(scan as int - 1, 512);
        assert(image@.len() - 512 == 512 * (scan - 1));
        assert(((image@.len() - 512) / 512) * 512 == image@.len() - 512);
        assert(entry_size_supported(image@));
    }
    let mut parts = match read_gpt_entries(&image) {
        None => {
            return Err(GptFault::TableRejected);
        },
        Some(v) => v,
    };
    let ghost es = view_parts(parts@);
    proof {
        assert(es.skip(0) =~= es);
    }
    let mut i: usize = 0;
    while i < parts.len()
        invariant
            i <= parts@.len(),
            es == view_parts(parts@),
            forall|l: int| #[trigger] dev.sector(l) == old(dev).sector(l),
            entry_size_supported(disk_prefix(*old(dev), spec_scan_sectors(*old(dev)))),
            gpt_entries(disk_prefix(*old(dev), spec_scan_sectors(*old(dev)))) == Some(es),
            first_efi(es) == first_efi(es.skip(i as int)),
        decreases parts@.len() - i,
    {
        let ghost entry = (parts@[i as int].0, parts@[i as int].1@, parts@[i as int].2, parts@[
            i as int
        ].3, parts@[i as int].4@);
        if parts[i].0 >= 1 && parts[i].0 <= 4 && guid_is_efi(&parts[i].1) {
            proof {
                assert(es[i as int] == entry);
                assert(is_efi_entry(es[i as int]));
                assert(es.skip(i as int)[0] == es[i as int]);
                assert(first_efi(es.skip(i as int)) == Some(es[i as int]));
            }
            let e = parts.remove(i);
            return Ok(
                Partition {
                    index: e.0,
                    part_type_guid: e.1,
                    start_lba: e.2,
                    end_lba: e.3,
                    name: e.4,
                },
            );
        }
        proof {
            assert(es[i as int] == entry);
            assert(!is_efi_entry(es[i as int]));
            assert(es.skip(i as int)[0] == es[i as int]);
            assert(es.skip(i as int).skip(1) =~= es.skip(i as int + 1));
            assert(first_efi(es.skip(i as int)) == first_efi(es.skip(i as int + 1)));
        }
        i = i + 1;
    }
    proof {
        assert(es.skip(parts@.len() as int) =~= Seq::<(u32, Seq<u8>, u64, u64, Seq<char>)>::empty());
        assert(first_efi(es.skip(parts@.len() as int)) is None);
    }
    Err(GptFault::NoEfiEntry)
}

} // verus!
