//! FAT32 volume walking: BPB geometry, 8.3 file names, root-directory
//! entries, and the name-to-sector resolver.

use vstd::prelude::*;
use crate::block::BlockDevice;
use crate::bytes::{le16, le32, read_le_u16, read_le_u32};

verus! {

/// Highest volume start LBA the resolver accepts; keeps every sector
/// address it computes within `u64`.
pub const MAX_START_LBA: u64 = 0xFFFF_F000_0000_0000;

/// Length of a stored 8.3 name: eight base bytes and three extension
/// bytes.
pub const FILE_NAME_LEN: usize = 11;

/// The boot-sector fields of a FAT32 volume that the resolver consumes.
#[derive(Clone, Copy, PartialEq, Eq, Structural)]
pub struct BpbSector {
    pub bytes_per_sector: u16,
    pub sectors_per_cluster: u8,
    pub reserved_sectors: u16,
    pub fats: u8,
    pub total_sectors_32: u32,
    pub sectors_per_fat_32: u32,
    pub root_dir_first_cluster: u32,
}

/// The BPB whose fields are stored at their fixed offsets in `sec`.
pub open spec fn spec_bpb(sec: Seq<u8>) -> BpbSector {
    BpbSector {
        bytes_per_sector: le16(sec, 11) as u16,
        sectors_per_cluster: sec[13],
        reserved_sectors: le16(sec, 14) as u16,
        fats: sec[16],
        total_sectors_32: le32(sec, 32) as u32,
        sectors_per_fat_32: le32(sec, 36) as u32,
        root_dir_first_cluster: le32(sec, 44) as u32,
    }
}

/// The boot-sector signature bytes 0x55, 0xAA at offsets 510, 511.
pub open spec fn bpb_signature_ok(sec: Seq<u8>) -> bool {
    sec[510] == 0x55u8 && sec[511] == 0xaau8
}

impl BpbSector {
    /// First sector of the root directory, relative to the volume:
    /// the reserved area followed by every FAT.
    pub open spec fn spec_root_sector(&self) -> int {
        self.reserved_sectors + self.fats * self.sectors_per_fat_32
    }

    /// Volume-relative first sector of cluster `c`.
    pub open spec fn spec_cluster_to_sector(&self, c: int) -> int {
        self.spec_root_sector() + (c - self.root_dir_first_cluster)
            * self.sectors_per_cluster
    }

    /// Parses a boot sector; `None` exactly when the signature is absent.
    pub fn deserialize(sector: &[u8]) -> (r: Option<BpbSector>)
        requires
            sector@.len() >= 512,
        ensures
            r == (if bpb_signature_ok(sector@) {
                Some(spec_bpb(sector@))
            } else {
                Option::<BpbSector>::None
            }),
    {
        if !(sector[510] == 0x55 && sector[511] == 0xaa) {
            return None;
        }
        let r = BpbSector {
            bytes_per_sector: read_le_u16(sector, 11),
            sectors_per_cluster: sector[13],
            reserved_sectors: read_le_u16(sector, 14),
            fats: sector[16],
            total_sectors_32: read_le_u32(sector, 32),
            sectors_per_fat_32: read_le_u32(sector, 36),
            root_dir_first_cluster: read_le_u32(sector, 44),
        };
        Some(r)
    }

    pub fn root_sector(&self) -> (r: u64)
        ensures
            r == self.spec_root_sector(),
            r < 0x200_0000_0000,
    {
        proof {
            assert(self.fats * self.sectors_per_fat_32 <= 255 * 0xFFFF_FFFFu64)
                by (nonlinear_arith)
                requires self.fats <= 255, self.sectors_per_fat_32 <= 0xFFFF_FFFFu64;
        }
        self.reserved_sectors as u64 + self.fats as u64 * self.sectors_per_fat_32 as u64
    }

    /// Volume-relative sector of cluster `c`; the root directory's own
    /// cluster lands exactly on `root_sector`.
    pub fn cluster_to_sector(&self, c: u32) -> (r: u64)
        requires
            c >= self.root_dir_first_cluster,
        ensures
            r == self.spec_cluster_to_sector(c as int),
            r < 0x400_0000_0000,
    {
        proof {
            assert((c - self.root_dir_first_cluster) * self.sectors_per_cluster
                <= 0xFFFF_FFFFu64 * 255) by (nonlinear_arith)
                requires
                    0 <= c - self.root_dir_first_cluster <= 0xFFFF_FFFFu64,
                    self.sectors_per_cluster <= 255;
        }
        let off = (c - self.root_dir_first_cluster) as u64 * self.sectors_per_cluster as u64;
        self.root_sector() + off
    }
}

/// The FAT address identity: the root directory's first cluster maps back
/// to the root sector, for every BPB.
pub proof fn lemma_root_cluster_maps_to_root_sector(bpb: BpbSector)
    ensures
        bpb.spec_cluster_to_sector(bpb.root_dir_first_cluster as int)
            == bpb.spec_root_sector(),
{
}

/// A byte an 8.3 name component may hold: an ASCII digit or letter.
pub open spec fn is_base_char(c: u8) -> bool {
    (48 <= c <= 57) || (65 <= c <= 90) || (97 <= c <= 122)
}

/// ASCII lower-case letters fold to upper case; all else is unchanged.
pub open spec fn fold_char(c: u8) -> u8 {
    if 97 <= c <= 122 {
        (c - 32) as u8
    } else {
        c
    }
}

/// `s` folded pointwise.
pub open spec fn fold_seq(s: Seq<u8>) -> Seq<u8> {
    s.map_values(|c: u8| fold_char(c))
}

/// Index of the first `v` in `s` at or after `i`; `s.len()` if there is none.
pub open spec fn first_of(s: Seq<u8>, v: u8, i: int) -> int
    decreases s.len() - i when 0 <= i <= s.len()
{
    if i < 0 || i >= s.len() {
        s.len() as int
    } else if s[i] == v {
        i
    } else {
        first_of(s, v, i + 1)
    }
}

pub proof fn lemma_first_of_props(s: Seq<u8>, v: u8, i: int)
    requires
        0 <= i <= s.len(),
    ensures
        i <= first_of(s, v, i) <= s.len(),
        first_of(s, v, i) < s.len() ==> s[first_of(s, v, i)] == v,
        forall|k: int| i <= k < first_of(s, v, i) ==> s[k] != v,
    decreases s.len() - i,
{
    if i < s.len() && s[i] != v {
        lemma_first_of_props(s, v, i + 1);
    }
}

pub proof fn lemma_first_of_is(s: Seq<u8>, v: u8, i: int, j: int)
    requires
        0 <= i <= j <= s.len(),
        forall|k: int| i <= k < j ==> s[k] != v,
        j < s.len() ==> s[j] == v,
    ensures
        first_of(s, v, i) == j,
    decreases j - i,
{
    if i < j {
        lemma_first_of_is(s, v, i + 1, j);
    }
}

/// Position of the separating dot of `s`: the first `.`, or `s.len()`.
pub open spec fn dot_pos(s: Seq<u8>) -> int {
    first_of(s, 46, 0)
}

/// The 8.3 name grammar: `BASE ("." EXT)?`, base of 1 to 8 mappable
/// characters not starting with a dot, extension of at most 3.
pub open spec fn name_shape_ok(s: Seq<u8>) -> bool {
    let p = dot_pos(s);
    &&& s.len() >= 1
    &&& s[0] != 46
    &&& p <= 8
    &&& (p < s.len() ==> s.len() - p - 1 <= 3)
    &&& (forall|i: int| 0 <= i < p ==> is_base_char(#[trigger] s[i]))
    &&& (forall|j: int| p < j < s.len() ==> is_base_char(#[trigger] s[j]))
}

/// The 11 stored bytes of a valid input: folded base characters padded
/// with spaces to 8, then folded extension characters padded to 11.
pub open spec fn encode_name(s: Seq<u8>) -> Seq<u8> {
    let p = dot_pos(s);
    Seq::new(11, |i: int|
        if i < 8 {
            if i < p {
                fold_char(s[i])
            } else {
                32u8
            }
        } else {
            if p < s.len() && p + 1 + (i - 8) < s.len() {
                fold_char(s[p + 1 + (i - 8)])
            } else {
                32u8
            }
        })
}

/// What parsing an input yields: the stored 11 bytes, or nothing.
pub open spec fn spec_name_of(s: Seq<u8>) -> Option<Seq<u8>> {
    if name_shape_ok(s) {
        Some(encode_name(s))
    } else {
        None
    }
}

/// How the stored bytes reflect a valid input whose last byte is not a
/// dot: base and extension characters fold to non-space bytes at their
/// positions, and everything else is the space pad.
proof fn lemma_encode_shape(s: Seq<u8>)
    requires
        name_shape_ok(s),
        s[s.len() - 1] != 46,
    ensures
        ({
            let p = dot_pos(s);
            let n = encode_name(s);
            &&& n.len() == 11
            &&& 1 <= p <= 8
            &&& (forall|i: int| 0 <= i < p ==> n[i] == fold_char(s[i]) && n[i] != 32)
            &&& (forall|i: int| p <= i < 8 ==> n[i] == 32u8)
            &&& (p < s.len() ==> 1 <= s.len() - p - 1 <= 3)
            &&& (p < s.len() ==> forall|k: int|
                0 <= k < s.len() - p - 1 ==> #[trigger] n[8 + k] == fold_char(s[p + 1 + k])
                    && n[8 + k] != 32)
            &&& (p < s.len() ==> forall|k: int|
                s.len() - p - 1 <= k < 3 ==> #[trigger] n[8 + k] == 32u8)
            &&& (p == s.len() ==> forall|k: int| 0 <= k < 3 ==> #[trigger] n[8 + k] == 32u8)
        }),
{
    let p = dot_pos(s);
    let n = encode_name(s);
    lemma_first_of_props(s, 46, 0);
    assert(p >= 1) by {
        assert(s[0] != 46);
    }
    assert forall|i: int| 0 <= i < p implies n[i] == fold_char(s[i]) && n[i] != 32 by {
        assert(is_base_char(s[i]));
    }
    if p < s.len() {
        assert(s.len() - p - 1 >= 1) by {
            if s.len() - p - 1 == 0 {
                assert(s[p] == 46);
                assert(p == s.len() - 1);
            }
        }
        assert forall|k: int| 0 <= k < s.len() - p - 1 implies #[trigger] n[8 + k]
            == fold_char(s[p + 1 + k]) && n[8 + k] != 32 by {
            assert(is_base_char(s[p + 1 + k]));
        }
    }
}

/// Injectivity of the stored name: two grammatical inputs, neither
/// ending in a dot, that store the same 11 bytes are the same input up
/// to case folding of ASCII letters.
pub proof fn lemma_name_injective(a: Seq<u8>, b: Seq<u8>)
    requires
        spec_name_of(a) is Some,
        spec_name_of(b) is Some,
        spec_name_of(a) == spec_name_of(b),
        a[a.len() - 1] != 46,
        b[b.len() - 1] != 46,
    ensures
        fold_seq(a) == fold_seq(b),
{
    let pa = dot_pos(a);
    let pb = dot_pos(b);
    let n = encode_name(a);
    assert(encode_name(b) == n);
    lemma_encode_shape(a);
    lemma_encode_shape(b);
    lemma_first_of_props(a, 46, 0);
    lemma_first_of_props(b, 46, 0);
    // The base lengths agree: a shorter one would put a space where the
    // longer one puts a folded character.
    assert(pa == pb) by {
        if pa < pb {
            assert(n[pa] == 32u8);
            assert(n[pa] != 32);
        }
        if pb < pa {
            assert(n[pb] == 32u8);
            assert(n[pb] != 32);
        }
    }
    let p = pa;
    // A dot is present exactly when the stored extension is non-empty.
    assert((p < a.len()) == (n[8] != 32u8));
    assert((p < b.len()) == (n[8] != 32u8));
    if p < a.len() {
        let ea = a.len() - p - 1;
        let eb = b.len() - p - 1;
        assert(ea == eb) by {
            if ea < eb {
                assert(n[8 + ea] == 32u8);
                assert(n[8 + ea] != 32);
            }
            if eb < ea {
                assert(n[8 + eb] == 32u8);
                assert(n[8 + eb] != 32);
            }
        }
        assert(a.len() == b.len());
        assert forall|i: int| 0 <= i < a.len() implies fold_char(a[i]) == fold_char(b[i]) by {
            if i < p {
                assert(n[i] == fold_char(a[i]));
                assert(n[i] == fold_char(b[i]));
            } else if i == p {
                assert(a[i] == 46 && b[i] == 46);
            } else {
                assert(n[8 + (i - p - 1)] == fold_char(a[p + 1 + (i - p - 1)]));
                assert(n[8 + (i - p - 1)] == fold_char(b[p + 1 + (i - p - 1)]));
            }
        }
        assert(fold_seq(a) =~= fold_seq(b));
    } else {
        assert(p == a.len() && p == b.len());
        assert forall|i: int| 0 <= i < a.len() implies fold_char(a[i]) == fold_char(b[i]) by {
            assert(n[i] == fold_char(a[i]));
            assert(n[i] == fold_char(b[i]));
        }
        assert(fold_seq(a) =~= fold_seq(b));
    }
}

/// Maps one input byte as the name grammar does: digits and upper-case
/// letters stand, lower-case letters fold to upper case, all else rejects.
pub fn valid_char(byte: u8) -> (r: Option<u8>)
    ensures
        r == (if is_base_char(byte) {
            Some(fold_char(byte))
        } else {
            Option::<u8>::None
        }),
{
    if (byte >= 48 && byte <= 57) || (byte >= 65 && byte <= 90) {
        Some(byte)
    } else if byte >= 97 && byte <= 122 {
        Some(byte - 32)
    } else {
        None
    }
}

/// An 8.3 file name as stored in a directory entry: 11 bytes,
/// space-padded, upper case.
pub struct FileName {
    bytes: Vec<u8>,
}

impl View for FileName {
    type V = Seq<u8>;

    closed spec fn view(&self) -> Seq<u8> {
        self.bytes@
    }
}

impl FileName {
    pub open spec fn wf(&self) -> bool {
        self@.len() == 11
    }

    /// Parses a user-entered name under the 8.3 grammar.
    pub fn from_slice(slice: &[u8]) -> (r: Option<FileName>)
        ensures
            r matches Some(f) ==> spec_name_of(slice@) == Some(f@) && f.wf(),
            r is None ==> spec_name_of(slice@) is None,
    {
        let n = slice.len();
        proof {
            lemma_first_of_props(slice@, 46, 0);
        }
        if n == 0 {
            return None;
        }
        if slice[0] == 46 {
            return None;
        }
        let mut out: Vec<u8> = Vec::new();
        // Base part: mappable characters up to the dot or to 8.
        let base_end = if n < 8 { n } else { 8 };
        let mut i: usize = 0;
        let mut p: usize = n;
        let mut saw_dot = false;
        while i < base_end && !saw_dot
            invariant
                0 <= i <= base_end,
                base_end == (if n < 8 { n as int } else { 8 }),
                n == slice@.len(),
                saw_dot ==> p == i && i < n && slice@[i as int] == 46,
                !saw_dot ==> p == n,
                out@.len() == i,
                forall|k: int| 0 <= k < i ==> slice@[k] != 46 && is_base_char(#[trigger] slice@[k]),
                forall|k: int| 0 <= k < i ==> out@[k] == fold_char(#[trigger] slice@[k]),
            decreases base_end - i + (if saw_dot { 0int } else { 1 }),
        {
            let b = slice[i];
            if b == 46 {
                p = i;
                saw_dot = true;
            } else {
                match valid_char(b) {
                    Some(m) => out.push(m),
                    None => {
                        proof {
                            lemma_first_of_props(slice@, 46, 0);
                            if name_shape_ok(slice@) {
                                let q = dot_pos(slice@);
                                if i < q {
                                    assert(is_base_char(slice@[i as int]));
                                } else {
                                    assert(q < slice@.len());
                                    assert(slice@[q] == 46);
                                }
                                assert(false);
                            }
                        }
                        return None;
                    },
                }
                i = i + 1;
            }
        }
        if !saw_dot {
            if n <= 8 {
                // Base-only name.
                proof {
                    lemma_first_of_is(slice@, 46, 0, n as int);
                }
            } else {
                // The ninth character must be the separating dot.
                if slice[8] != 46 {
                    proof {
                        lemma_first_of_props(slice@, 46, 0);
                        assert(!name_shape_ok(slice@)) by {
                            if name_shape_ok(slice@) {
                                let q = dot_pos(slice@);
                                assert(q < 8 ==> slice@[q] == 46);
                                assert(q == 8 ==> slice@[8] == 46);
                            }
                        };
                    }
                    return None;
                }
                p = 8;
                saw_dot = true;
                proof {
                    lemma_first_of_is(slice@, 46, 0, 8);
                }
            }
        } else {
            proof {
                lemma_first_of_is(slice@, 46, 0, p as int);
            }
        }
        // Here `p` is the dot position (or `n` when the name is base-only)
        // and `out` holds the folded base characters.
        assert(dot_pos(slice@) == p);
        if saw_dot {
            if n - 1 - p > 3 {
                return None;
            }
        }
        while out.len() < 8
            invariant
                out@.len() <= 8,
                p == dot_pos(slice@),
                p <= 8,
                forall|k: int| 0 <= k < p ==> out@[k] == fold_char(#[trigger] slice@[k]),
                forall|k: int| p <= k < out@.len() ==> out@[k] == 32u8,
                out@.len() >= p,
            decreases 8 - out@.len(),
        {
            out.push(32);
        }
        if saw_dot {
            let mut j: usize = p + 1;
            while j < n
                invariant
                    p + 1 <= j <= n,
                    n == slice@.len(),
                    p == dot_pos(slice@),
                    p <= 8,
                    n - 1 - p <= 3,
                    out@.len() == 8 + (j - p - 1),
                    forall|k: int| 0 <= k < p ==> out@[k] == fold_char(#[trigger] slice@[k]),
                    forall|k: int| p <= k < 8 ==> out@[k] == 32u8,
                    forall|k: int| p < k < j ==> is_base_char(#[trigger] slice@[k]),
                    forall|k: int| 8 <= k < out@.len() ==> out@[k] == fold_char(
                        #[trigger] slice@[p + 1 + (k - 8)],
                    ),
                decreases n - j,
            {
                let b = slice[j];
                match valid_char(b) {
                    Some(m) => out.push(m),
                    None => {
                        proof {
                            if name_shape_ok(slice@) {
                                assert(is_base_char(slice@[j as int]));
                                assert(false);
                            }
                        }
                        return None;
                    },
                }
                j = j + 1;
            }
        }
        while out.len() < 11
            invariant
                out@.len() <= 11,
                p == dot_pos(slice@),
                p <= 8,
                n == slice@.len(),
                out@.len() >= 8,
                p < n ==> n - 1 - p <= 3,
                forall|k: int| 0 <= k < p ==> out@[k] == fold_char(#[trigger] slice@[k]),
                forall|k: int| p <= k < 8 ==> out@[k] == 32u8,
                p < n ==> forall|k: int| p < k < n ==> is_base_char(#[trigger] slice@[k]),
                p < n ==> out@.len() >= 8 + (n - p - 1),
                forall|k: int| 8 <= k < out@.len() && p + 1 + (k - 8) < n ==> out@[k]
                    == fold_char(#[trigger] slice@[p + 1 + (k - 8)]),
                forall|k: int| 8 <= k < out@.len() && p + 1 + (k - 8) >= n ==> out@[k] == 32u8,
            decreases 11 - out@.len(),
        {
            out.push(32);
        }
        proof {
            assert(name_shape_ok(slice@));
            assert(out@ =~= encode_name(slice@));
        }
        Some(FileName { bytes: out })
    }

    /// The stored 11 bytes.
    pub fn bytes(&self) -> (r: &Vec<u8>)
        ensures
            r@ == self@,
    {
        &self.bytes
    }

    /// Byte-for-byte comparison against the name field of a directory entry.
    pub fn matches(&self, entry_name: &Vec<u8>) -> (r: bool)
        requires
            self.wf(),
        ensures
            r == (self@ == entry_name@),
    {
        if entry_name.len() != 11 {
            proof {
                assert(self@.len() == 11);
            }
            return false;
        }
        let mut i: usize = 0;
        while i < 11
            invariant
                0 <= i <= 11,
                self@.len() == 11,
                entry_name@.len() == 11,
                forall|k: int| 0 <= k < i ==> self@[k] == entry_name@[k],
            decreases 11 - i,
        {
            if self.bytes[i] != entry_name[i] {
                return false;
            }
            i = i + 1;
        }
        proof {
            assert(self@ =~= entry_name@);
        }
        true
    }
}

/// A FAT32 volume at an absolute position on the block device.
#[derive(Clone, Copy, PartialEq, Eq, Structural)]
pub struct Volume {
    pub start_lba: u64,
    pub bpb: BpbSector,
}

impl Volume {
    pub open spec fn wf(&self) -> bool {
        self.start_lba <= MAX_START_LBA
    }

    pub fn new(start_lba: u64) -> (r: Volume)
        ensures
            r.start_lba == start_lba,
            r.bpb == (BpbSector {
                bytes_per_sector: 0,
                sectors_per_cluster: 0,
                reserved_sectors: 0,
                fats: 0,
                total_sectors_32: 0,
                sectors_per_fat_32: 0,
                root_dir_first_cluster: 0,
            }),
    {
        Volume {
            start_lba,
            bpb: BpbSector {
                bytes_per_sector: 0,
                sectors_per_cluster: 0,
                reserved_sectors: 0,
                fats: 0,
                total_sectors_32: 0,
                sectors_per_fat_32: 0,
                root_dir_first_cluster: 0,
            },
        }
    }

    /// Adopts the parsed boot sector; `false` exactly when the signature
    /// is absent, in which case the volume is unchanged.
    pub fn init_bpb(&mut self, sector: &[u8]) -> (ok: bool)
        requires
            sector@.len() >= 512,
        ensures
            ok == bpb_signature_ok(sector@),
            ok ==> *final(self) == (Volume { bpb: spec_bpb(sector@), ..*old(self) }),
            !ok ==> *final(self) == *old(self),
    {
        match BpbSector::deserialize(sector) {
            Some(b) => {
                self.bpb = b;
                true
            },
            None => false,
        }
    }
}

/// The 32-byte directory slot `i` of a sector.
pub open spec fn dir_entry_bytes(sec: Seq<u8>, i: int) -> Seq<u8> {
    sec.subrange(32 * i, 32 * i + 32)
}

/// An unused ("absent") directory slot: 32 zero bytes.
pub open spec fn entry_all_zero(e: Seq<u8>) -> bool {
    forall|k: int| 0 <= k < e.len() ==> e[k] == 0u8
}

/// The size field of a directory slot.
pub open spec fn entry_size(e: Seq<u8>) -> int {
    le32(e, 28)
}

/// The first-cluster number of a directory slot: low word at 26,
/// high word at 20.
pub open spec fn entry_cluster(e: Seq<u8>) -> int {
    le16(e, 26) + 0x1_0000 * le16(e, 20)
}

/// An 8.3 directory entry in its short form.
pub struct DirEntry {
    pub name: Vec<u8>,
    pub cluster_h: u16,
    pub cluster_l: u16,
    pub size: u32,
}

impl DirEntry {
    /// Reads the slot at `off`; `None` exactly for an absent slot.
    pub fn deserialize(sec: &[u8], off: usize) -> (r: Option<DirEntry>)
        requires
            off + 32 <= sec@.len(),
        ensures
            ({
                let e = sec@.subrange(off as int, off + 32);
                match r {
                    None => entry_all_zero(e),
                    Some(d) => {
                        &&& !entry_all_zero(e)
                        &&& d.name@ == e.subrange(0, 11)
                        &&& d.cluster_h as int == le16(e, 20)
                        &&& d.cluster_l as int == le16(e, 26)
                        &&& d.size as int == le32(e, 28)
                    },
                }
            }),
    {
        let n = sec.len();
        let ghost e = sec@.subrange(off as int, off + 32);
        let mut zero = true;
        let mut k: usize = 0;
        while k < 32
            invariant
                k <= 32,
                off + 32 <= sec@.len() <= usize::MAX,
                e == sec@.subrange(off as int, off + 32),
                zero == (forall|m: int| 0 <= m < k ==> e[m] == 0u8),
            decreases 32 - k,
        {
            if sec[off + k] != 0 {
                zero = false;
                proof {
                    assert(e[k as int] != 0u8);
                }
            }
            k = k + 1;
        }
        if zero {
            return None;
        }
        let mut name: Vec<u8> = Vec::new();
        let mut k: usize = 0;
        while k < 11
            invariant
                k <= 11,
                off + 32 <= sec@.len() <= usize::MAX,
                e == sec@.subrange(off as int, off + 32),
                name@.len() == k,
                forall|m: int| 0 <= m < k ==> name@[m] == e[m],
            decreases 11 - k,
        {
            name.push(sec[off + k]);
            k = k + 1;
        }
        proof {
            assert(name@ =~= e.subrange(0, 11));
        }
        let d = DirEntry {
            name,
            cluster_h: read_le_u16(sec, off + 20),
            cluster_l: read_le_u16(sec, off + 26),
            size: read_le_u32(sec, off + 28),
        };
        proof {
            assert(le16(e, 20) == le16(sec@, off + 20));
            assert(le16(e, 26) == le16(sec@, off + 26));
            assert(le32(e, 28) == le32(sec@, off + 28));
        }
        Some(d)
    }

    /// This bootloader treats a non-absent slot as a file exactly when
    /// its size is non-zero.
    pub fn is_file(&self) -> (r: bool)
        ensures
            r == (self.size != 0),
    {
        self.size != 0
    }

    /// First cluster of the entry's data.
    pub fn cluster(&self) -> (r: u32)
        ensures
            r == self.cluster_l + 0x1_0000 * self.cluster_h,
    {
        self.cluster_l as u32 + 0x1_0000u32 * self.cluster_h as u32
    }
}

/// A usable match for `target`: a present slot of non-zero size whose
/// stored name equals the target and whose cluster is addressable
/// (at or past the root directory's own cluster).
pub open spec fn entry_matches(e: Seq<u8>, target: Seq<u8>, root_cluster: int) -> bool {
    &&& !entry_all_zero(e)
    &&& entry_size(e) != 0
    &&& e.subrange(0, 11) == target
    &&& entry_cluster(e) >= root_cluster
}

/// Index of the first matching slot of the sector at or after `i`.
pub open spec fn first_match_in(sec: Seq<u8>, target: Seq<u8>, root_cluster: int, i: int)
    -> Option<int>
    decreases 16 - i,
{
    if i < 0 || i >= 16 {
        None
    } else if entry_matches(dir_entry_bytes(sec, i), target, root_cluster) {
        Some(i)
    } else {
        first_match_in(sec, target, root_cluster, i + 1)
    }
}

impl Volume {
    /// Absolute LBA of the first root-directory sector.
    pub open spec fn abs_root_sector(&self) -> int {
        self.start_lba + self.bpb.spec_root_sector()
    }
}

/// Result of scanning the root directory for `target` from sector `j`
/// on: the first matching entry's absolute LBA and size, in directory
/// order, over at most `sectors_per_cluster` sectors.
pub open spec fn found_from<D: BlockDevice>(vol: Volume, d: D, target: Seq<u8>, j: int)
    -> Option<(u64, u64)>
    decreases vol.bpb.sectors_per_cluster - j,
{
    if j < 0 || j >= vol.bpb.sectors_per_cluster {
        None
    } else {
        let sec = d.sector(vol.abs_root_sector() + j);
        match first_match_in(sec, target, vol.bpb.root_dir_first_cluster as int, 0) {
            Some(i) => {
                let e = dir_entry_bytes(sec, i);
                Some(
                    (
                        (vol.start_lba + vol.bpb.spec_cluster_to_sector(entry_cluster(e))) as u64,
                        entry_size(e) as u64,
                    ),
                )
            },
            None => found_from(vol, d, target, j + 1),
        }
    }
}

/// What `Volume::find` returns: nothing for an ungrammatical name, else
/// the first match in the root directory.
pub open spec fn spec_find<D: BlockDevice>(vol: Volume, d: D, name: Seq<u8>) -> Option<(u64, u64)> {
    match spec_name_of(name) {
        None => None,
        Some(t) => found_from(vol, d, t, 0),
    }
}

/// A found slot lies in range and satisfies the match predicate.
pub proof fn lemma_first_match_props(sec: Seq<u8>, target: Seq<u8>, rc: int, i: int)
    ensures
        first_match_in(sec, target, rc, i) matches Some(m) ==> i <= m < 16 && entry_matches(
            dir_entry_bytes(sec, m),
            target,
            rc,
        ),
    decreases 16 - i,
{
    if 0 <= i < 16 && !entry_matches(dir_entry_bytes(sec, i), target, rc) {
        lemma_first_match_props(sec, target, rc, i + 1);
    }
}

/// What the scan can return is bounded: the LBA stays well below `u64`'s
/// ceiling and the size below 2^32, for every well-formed volume.
pub proof fn lemma_found_bounds<D: BlockDevice>(vol: Volume, d: D, target: Seq<u8>, j: int)
    requires
        vol.wf(),
        found_from(vol, d, target, j) is Some,
    ensures
        ({
            let pair = found_from(vol, d, target, j).unwrap();
            pair.0 <= 0xFFFF_F600_0000_0000u64 && pair.1 < 0x1_0000_0000u64
        }),
    decreases vol.bpb.sectors_per_cluster - j,
{
    if 0 <= j < vol.bpb.sectors_per_cluster {
        let sec = d.sector(vol.abs_root_sector() + j);
        let rc = vol.bpb.root_dir_first_cluster as int;
        match first_match_in(sec, target, rc, 0) {
            Some(i) => {
                lemma_first_match_props(sec, target, rc, 0);
                let e = dir_entry_bytes(sec, i);
                let c = entry_cluster(e);
                assert(rc <= c < 0x1_0000_0000);
                assert((c - rc) * vol.bpb.sectors_per_cluster <= 0xFFFF_FFFF * 255)
                    by (nonlinear_arith)
                    requires
                        0 <= c - rc <= 0xFFFF_FFFF,
                        vol.bpb.sectors_per_cluster <= 255;
                assert(vol.bpb.fats * vol.bpb.sectors_per_fat_32 <= 255 * 0xFFFF_FFFF)
                    by (nonlinear_arith)
                    requires
                        vol.bpb.fats <= 255,
                        vol.bpb.sectors_per_fat_32 <= 0xFFFF_FFFF;
                assert(vol.start_lba + vol.bpb.spec_cluster_to_sector(c)
                    <= 0xFFFF_F600_0000_0000);
            },
            None => {
                lemma_found_bounds(vol, d, target, j + 1);
            },
        }
    }
}

/// The scan depends on the device only through its sector contents.
pub proof fn lemma_found_same<D: BlockDevice>(vol: Volume, d1: D, d2: D, target: Seq<u8>, j: int)
    requires
        forall|l: int| #[trigger] d1.sector(l) == d2.sector(l),
    ensures
        found_from(vol, d1, target, j) == found_from(vol, d2, target, j),
    decreases vol.bpb.sectors_per_cluster - j,
{
    if 0 <= j < vol.bpb.sectors_per_cluster {
        assert(d1.sector(vol.abs_root_sector() + j) == d2.sector(vol.abs_root_sector() + j));
        lemma_found_same(vol, d1, d2, target, j + 1);
    }
}

/// So does the whole resolution.
pub proof fn lemma_spec_find_same<D: BlockDevice>(vol: Volume, d1: D, d2: D, name: Seq<u8>)
    requires
        forall|l: int| #[trigger] d1.sector(l) == d2.sector(l),
    ensures
        spec_find(vol, d1, name) == spec_find(vol, d2, name),
{
    match spec_name_of(name) {
        None => {
        },
        Some(t) => {
            lemma_found_same(vol, d1, d2, t, 0);
        },
    }
}

impl Volume {
    /// Resolves `name` in the root directory: the kernel's absolute LBA
    /// and byte size, or `None` when the name is ungrammatical or absent.
    pub fn find<D: BlockDevice>(&self, name: &[u8], blk_dev: &mut D) -> (r: Option<(u64, u64)>)
        requires
            self.wf(),
        ensures
            forall|l: int| #[trigger] final(blk_dev).sector(l) == old(blk_dev).sector(l),
            r == spec_find(*self, *old(blk_dev), name@),
            spec_name_of(name@) is None ==> final(blk_dev).reads() == old(blk_dev).reads(),
            final(blk_dev).reads() <= old(blk_dev).reads() + self.bpb.sectors_per_cluster,
    {
        let target = match FileName::from_slice(name) {
            None => {
                return None;
            },
            Some(t) => t,
        };
        let root = self.bpb.root_sector();
        let spc = self.bpb.sectors_per_cluster;
        let ghost rc = self.bpb.root_dir_first_cluster as int;
        let mut buf: Vec<u8> = Vec::new();
        let mut j: u8 = 0;
        while j < spc
            invariant
                self.wf(),
                j <= spc,
                spc == self.bpb.sectors_per_cluster,
                root == self.bpb.spec_root_sector(),
                root < 0x200_0000_0000,
                rc == self.bpb.root_dir_first_cluster as int,
                spec_name_of(name@) == Some(target@),
                target.wf(),
                forall|l: int| #[trigger] blk_dev.sector(l) == old(blk_dev).sector(l),
                blk_dev.reads() == old(blk_dev).reads() + j,
                found_from(*self, *old(blk_dev), target@, 0) == found_from(
                    *self,
                    *old(blk_dev),
                    target@,
                    j as int,
                ),
            decreases spc - j,
        {
            blk_dev.read_block(self.start_lba + root + j as u64, &mut buf);
            let ghost sec = buf@;
            proof {
                assert(sec == old(blk_dev).sector(self.abs_root_sector() + j));
            }
            let mut i: usize = 0;
            while i < 16
                invariant
                    i <= 16,
                    j < spc,
                    self.wf(),
                    spc == self.bpb.sectors_per_cluster,
                    root == self.bpb.spec_root_sector(),
                    root < 0x200_0000_0000,
                    rc == self.bpb.root_dir_first_cluster as int,
                    spec_name_of(name@) == Some(target@),
                    target.wf(),
                    buf@ == sec,
                    sec.len() == 512,
                    sec == old(blk_dev).sector(self.abs_root_sector() + j),
                    forall|l: int| #[trigger] blk_dev.sector(l) == old(blk_dev).sector(l),
                    blk_dev.reads() == old(blk_dev).reads() + j + 1,
                    found_from(*self, *old(blk_dev), target@, 0) == found_from(
                        *self,
                        *old(blk_dev),
                        target@,
                        j as int,
                    ),
                    first_match_in(sec, target@, rc, 0) == first_match_in(sec, target@, rc, i as int),
                decreases 16 - i,
            {
                let off = i * 32;
                let ghost e = dir_entry_bytes(sec, i as int);
                proof {
                    assert(e == sec.subrange(off as int, off + 32));
                }
                let parsed = DirEntry::deserialize(buf.as_slice(), off);
                let mut matched = false;
                match parsed {
                    Some(d) => {
                        if d.is_file() && target.matches(&d.name)
                            && d.cluster() >= self.bpb.root_dir_first_cluster {
                            proof {
                                assert(d.name@ == e.subrange(0, 11));
                                assert(entry_matches(e, target@, rc));
                                assert(first_match_in(sec, target@, rc, i as int)
                                    == Some(i as int));
                            }
                            let c = d.cluster();
                            let sector = self.bpb.cluster_to_sector(c);
                            proof {
                                assert(entry_cluster(e) == c as int);
                                assert(found_from(*self, *old(blk_dev), target@, j as int)
                                    matches Some(pair) && pair == (
                                    (self.start_lba + self.bpb.spec_cluster_to_sector(
                                        entry_cluster(e),
                                    )) as u64,
                                    entry_size(e) as u64,
                                ));
                            }
                            return Some((self.start_lba + sector, d.size as u64));
                        }
                        proof {
                            assert(!entry_matches(e, target@, rc));
                        }
                    },
                    None => {
                        proof {
                            assert(entry_all_zero(e));
                            assert(!entry_matches(e, target@, rc));
                        }
                    },
                }
                proof {
                    assert(first_match_in(sec, target@, rc, i as int) == first_match_in(
                        sec,
                        target@,
                        rc,
                        i as int + 1,
                    ));
                }
                i = i + 1;
            }
            proof {
                assert(first_match_in(sec, target@, rc, 16) is None);
                assert(found_from(*self, *old(blk_dev), target@, j as int) == found_from(
                    *self,
                    *old(blk_dev),
                    target@,
                    j as int + 1,
                ));
            }
            j = j + 1;
        }
        proof {
            assert(found_from(*self, *old(blk_dev), target@, spc as int) is None);
        }
        None
    }
}

} // verus!
