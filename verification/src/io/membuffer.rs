//! A one-sector memory buffer with little-endian accessors.

use vstd::prelude::*;
use vstd::slice::slice_subrange;

verus! {

/// Number of bytes in one sector buffer.
pub const SECTOR_SIZE: usize = 512;

/// The 16-bit little-endian value at offset `i` of `b`.
pub open spec fn spec_le16(b: Seq<u8>, i: int) -> u16 {
    ((b[i + 1] as u16) << 8) | (b[i] as u16)
}

/// The 32-bit little-endian value at offset `i` of `b`.
pub open spec fn spec_le32(b: Seq<u8>, i: int) -> u32 {
    ((b[i + 3] as u32) << 24) | ((b[i + 2] as u32) << 16) | ((b[i + 1] as u32) << 8) | (b[
        i] as u32)
}

/// One 512-byte disk sector held in memory.
pub struct MemBuffer {
    /// The sector's bytes.
    pub buffer: Vec<u8>,
}

impl MemBuffer {
    /// The buffer always holds exactly one sector.
    pub open spec fn wf(&self) -> bool {
        self.buffer@.len() == 512
    }

    /// A zeroed sector buffer.
    pub fn new() -> (r: MemBuffer)
        ensures
            r.wf(),
            forall|i: int| 0 <= i < 512 ==> r.buffer@[i] == 0,
    {
        let mut buffer: Vec<u8> = Vec::new();
        let mut i: usize = 0;
        while i < 512
            invariant
                i <= 512,
                buffer@.len() == i,
                forall|j: int| 0 <= j < i ==> buffer@[j] == 0,
            decreases 512 - i,
        {
            buffer.push(0);
            i = i + 1;
        }
        MemBuffer { buffer }
    }

    /// Number of bytes held.
    pub fn len(&self) -> (r: usize)
        requires
            self.wf(),
        ensures
            r == 512,
    {
        self.buffer.len()
    }

    /// The byte at offset `i`.
    pub fn get_u8(&self, i: usize) -> (r: u8)
        requires
            self.wf(),
            i < 512,
        ensures
            r == self.buffer@[i as int],
    {
        self.buffer[i]
    }

    /// The 16-bit little-endian value at offset `i`.
    pub fn get_u16(&self, i: usize) -> (r: u16)
        requires
            self.wf(),
            i + 1 < 512,
        ensures
            r == spec_le16(self.buffer@, i as int),
            r == self.buffer@[i as int] + 256 * self.buffer@[i as int + 1],
    {
        let lo = self.buffer[i];
        let hi = self.buffer[i + 1];
        proof {
            assert((((hi as u16) << 8) | (lo as u16)) == hi as u16 * 256 + lo as u16)
                by (bit_vector);
        }
        ((hi as u16) << 8) | (lo as u16)
    }

    /// The 32-bit little-endian value at offset `i`.
    pub fn get_u32(&self, i: usize) -> (r: u32)
        requires
            self.wf(),
            i + 3 < 512,
        ensures
            r == spec_le32(self.buffer@, i as int),
            r == self.buffer@[i as int] + 256 * self.buffer@[i as int + 1] + 65536 * self.buffer@[i
                as int + 2] + 16777216 * self.buffer@[i as int + 3],
    {
        let b0 = self.buffer[i];
        let b1 = self.buffer[i + 1];
        let b2 = self.buffer[i + 2];
        let b3 = self.buffer[i + 3];
        proof {
            assert((((b3 as u32) << 24) | ((b2 as u32) << 16) | ((b1 as u32) << 8) | (b0 as u32))
                == b0 as u32 + 256 * (b1 as u32) + 65536 * (b2 as u32) + 16777216 * (b3 as u32))
                by (bit_vector);
        }
        ((b3 as u32) << 24) | ((b2 as u32) << 16) | ((b1 as u32) << 8) | (b0 as u32)
    }

    /// Stores `val` little-endian at offset `i`; reading it back gives `val`,
    /// and no other byte changes.
    pub fn set_u16(&mut self, i: usize, val: u16)
        requires
            old(self).wf(),
            i + 1 < 512,
        ensures
            final(self).wf(),
            final(self).buffer@ == old(self).buffer@.update(i as int, (val & 0xff) as u8).update(
                i as int + 1,
                (val >> 8) as u8,
            ),
            spec_le16(final(self).buffer@, i as int) == val,
            forall|j: int|
                0 <= j < 512 && j != i && j != i + 1 ==> final(self).buffer@[j] == old(
                    self,
                ).buffer@[j],
    {
        self.buffer[i] = (val & 0xff) as u8;
        self.buffer[i + 1] = (val >> 8) as u8;
        proof {
            assert(((((val >> 8) as u8) as u16) << 8) | (((val & 0xff) as u8) as u16) == val)
                by (bit_vector);
        }
    }

    /// The `len` bytes starting at offset `i`.
    pub fn get_slice(&self, i: usize, len: usize) -> (r: &[u8])
        requires
            self.wf(),
            i + len <= 512,
        ensures
            r@ == self.buffer@.subrange(i as int, i as int + len as int),
    {
        slice_subrange(self.buffer.as_slice(), i, i + len)
    }
}

} // verus!
