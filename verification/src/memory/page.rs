//! Virtual pages: a page-aligned virtual address decomposed into the four
//! 9-bit table indices of 4-level paging.

use vstd::prelude::*;
use crate::memory::PAGE_SIZE;

verus! {

/// A virtual address is canonical when bits 47 to 63 are all equal, that is,
/// when it lies in the lower or upper half of the 48-bit address space.
pub open spec fn canonical_address(address: u64) -> bool {
    address < 0x0000_8000_0000_0000 || address >= 0xffff_8000_0000_0000
}

/// The four 9-bit indices of any page number are below 512.
pub proof fn lemma_page_index_bounds(n: u64)
    ensures
        ((n >> 27) & 0o777) < 512,
        ((n >> 18) & 0o777) < 512,
        ((n >> 9) & 0o777) < 512,
        (n & 0o777) < 512,
{
    assert(((n >> 27) & 0o777) < 512 && ((n >> 18) & 0o777) < 512 && ((n >> 9) & 0o777) < 512 && (
    n & 0o777) < 512) by (bit_vector);
}

/// Identifies one virtual page by its page-aligned number.
#[derive(Debug, Clone, Copy, PartialEq, Eq, Structural)]
pub struct Page {
    pub number: u64,
}

impl Page {
    /// Index into the level-4 table, bits 27 to 35 of the page number.
    pub open spec fn spec_p4_index(&self) -> usize {
        (((self.number >> 27) & 0o777) as usize)
    }

    /// Index into the level-3 table, bits 18 to 26 of the page number.
    pub open spec fn spec_p3_index(&self) -> usize {
        (((self.number >> 18) & 0o777) as usize)
    }

    /// Index into the level-2 table, bits 9 to 17 of the page number.
    pub open spec fn spec_p2_index(&self) -> usize {
        (((self.number >> 9) & 0o777) as usize)
    }

    /// Index into the level-1 table, bits 0 to 8 of the page number.
    pub open spec fn spec_p1_index(&self) -> usize {
        ((self.number & 0o777) as usize)
    }

    /// The page covering the given virtual address, which must be canonical.
    pub fn containing_address(address: u64) -> (r: Page)
        requires
            canonical_address(address),
        ensures
            r.number == address / PAGE_SIZE,
    {
        Page { number: address / PAGE_SIZE }
    }

    /// First byte address of this page.
    pub fn start_address(&self) -> (r: u64)
        requires
            self.number < 0x10_0000_0000_0000,
        ensures
            r == self.number * PAGE_SIZE,
    {
        self.number * PAGE_SIZE
    }

    #[verifier::when_used_as_spec(spec_p4_index)]
    pub fn p4_index(&self) -> (r: usize)
        ensures
            r == self.spec_p4_index(),
            r < 512,
    {
        let r = ((self.number >> 27) & 0o777) as usize;
        proof {
            lemma_page_index_bounds(self.number);
        }
        r
    }

    #[verifier::when_used_as_spec(spec_p3_index)]
    pub fn p3_index(&self) -> (r: usize)
        ensures
            r == self.spec_p3_index(),
            r < 512,
    {
        let r = ((self.number >> 18) & 0o777) as usize;
        proof {
            lemma_page_index_bounds(self.number);
        }
        r
    }

    #[verifier::when_used_as_spec(spec_p2_index)]
    pub fn p2_index(&self) -> (r: usize)
        ensures
            r == self.spec_p2_index(),
            r < 512,
    {
        let r = ((self.number >> 9) & 0o777) as usize;
        proof {
            lemma_page_index_bounds(self.number);
        }
        r
    }

    #[verifier::when_used_as_spec(spec_p1_index)]
    pub fn p1_index(&self) -> (r: usize)
        ensures
            r == self.spec_p1_index(),
            r < 512,
    {
        let r = (self.number & 0o777) as usize;
        proof {
            lemma_page_index_bounds(self.number);
        }
        r
    }
}

} // verus!
