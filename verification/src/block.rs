//! The 512-byte-sector block transport that the discovery pipeline reads.
//!
//! The platform's SD/MMC driver implements [`BlockDevice`]; [`MemDisk`]
//! is a verified in-memory implementation used to exercise the pipeline.

use vstd::prelude::*;

verus! {

/// A synchronous block device of 512-byte sectors.
///
/// `sector(lba)` is the device's content model: the 512 bytes that a read
/// of that LBA delivers. Reads never change the content, and `reads()`
/// counts how many sector reads have been issued.
pub trait BlockDevice: Sized {
    open spec fn sector(&self, lba: int) -> Seq<u8> {
        Seq::empty()
    }

    open spec fn reads(&self) -> nat {
        0
    }

    fn read_block(&mut self, lba: u64, buf: &mut Vec<u8>)
        ensures
            final(buf)@ == old(self).sector(lba as int),
            final(buf)@.len() == 512,
            forall|l: int| #[trigger] final(self).sector(l) == old(self).sector(l),
            final(self).reads() == old(self).reads() + 1,
    ;
}

/// A block device held in memory, sector by sector.
///
/// LBAs beyond the stored image, and stored sectors of the wrong length,
/// read as all zeroes, so the device is total.
pub struct MemDisk {
    sectors: Vec<Vec<u8>>,
    read_count: Ghost<nat>,
}

impl MemDisk {
    pub fn new(sectors: Vec<Vec<u8>>) -> (r: MemDisk)
        ensures
            forall|l: int|
                #[trigger] r.sector(l) == (if 0 <= l < sectors@.len()
                    && sectors@[l]@.len() == 512 {
                    sectors@[l]@
                } else {
                    Seq::new(512, |i: int| 0u8)
                }),
            r.reads() == 0,
    {
        MemDisk { sectors, read_count: Ghost(0) }
    }

    /// Builds the disk from one flat image, 512 bytes per sector; a final
    /// partial sector is dropped.
    pub fn from_image(image: &[u8]) -> (r: MemDisk)
        ensures
            forall|l: int|
                #[trigger] r.sector(l) == (if 0 <= l < image@.len() / 512 {
                    image@.subrange(512 * l, 512 * l + 512)
                } else {
                    Seq::new(512, |i: int| 0u8)
                }),
            r.reads() == 0,
    {
        let n: usize = image.len() / 512;
        assert(512 * n <= image@.len());
        let mut sectors: Vec<Vec<u8>> = Vec::new();
        let mut j: usize = 0;
        let mut pos: usize = 0;
        while j < n
            invariant
                j <= n,
                pos == 512 * j,
                512 * n <= image@.len(),
                n == image@.len() / 512,
                sectors@.len() == j,
                forall|l: int| 0 <= l < j ==> #[trigger] sectors@[l]@ == image@.subrange(
                    512 * l,
                    512 * l + 512,
                ),
            decreases n - j,
        {
            assert(512 * j + 512 <= 512 * n) by (nonlinear_arith)
                requires j < n;
            let mut sec: Vec<u8> = Vec::new();
            let mut i: usize = 0;
            while i < 512
                invariant
                    i <= 512,
                    pos == 512 * j + i,
                    512 * j + 512 <= image@.len(),
                    sec@.len() == i,
                    forall|k: int| 0 <= k < i ==> sec@[k] == image@[512 * j + k],
                decreases 512 - i,
            {
                sec.push(image[pos]);
                i = i + 1;
                pos = pos + 1;
            }
            assert(sec@ =~= image@.subrange(512 * j as int, 512 * j as int + 512));
            sectors.push(sec);
            j = j + 1;
        }
        MemDisk::new(sectors)
    }
}

impl BlockDevice for MemDisk {
    closed spec fn sector(&self, lba: int) -> Seq<u8> {
        if 0 <= lba < self.sectors@.len() && self.sectors@[lba]@.len() == 512 {
            self.sectors@[lba]@
        } else {
            Seq::new(512, |i: int| 0u8)
        }
    }

    closed spec fn reads(&self) -> nat {
        self.read_count@
    }

    fn read_block(&mut self, lba: u64, buf: &mut Vec<u8>) {
        buf.clear();
        if lba < self.sectors.len() as u64 && self.sectors[lba as usize].len() == 512 {
            let li: usize = lba as usize;
            let mut i: usize = 0;
            while i < 512
                invariant
                    i <= 512,
                    buf@.len() == i,
                    self == old(self),
                    li == lba as int,
                    0 <= li < self.sectors@.len(),
                    self.sectors@[li as int]@.len() == 512,
                    forall|k: int| 0 <= k < i ==> buf@[k] == self.sectors@[li as int]@[k],
                decreases 512 - i,
            {
                let b = self.sectors[li][i];
                buf.push(b);
                i = i + 1;
            }
        } else {
            let mut i: usize = 0;
            while i < 512
                invariant
                    i <= 512,
                    buf@.len() == i,
                    self == old(self),
                    forall|k: int| 0 <= k < i ==> buf@[k] == 0u8,
                decreases 512 - i,
            {
                buf.push(0u8);
                i = i + 1;
            }
        }
        assert(buf@ =~= self.sector(lba as int));
        proof {
            self.read_count@ = self.read_count@ + 1;
        }
    }
}

} // verus!
