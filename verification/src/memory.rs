//! Physical memory: frames, usable memory areas, and the frame-allocator
//! interface.

use vstd::prelude::*;

pub mod area_frame_allocator;
pub mod entry;
pub mod page;
pub mod pagetable;
pub mod table;

verus! {

/// Size of one page / frame in bytes.
pub const PAGE_SIZE: u64 = 4096;

/// Identifies one physical page by its page-aligned number.
#[derive(Debug, PartialEq, Eq, Structural, PartialOrd, Ord)]
pub struct Frame {
    pub number: u64,
}

impl Frame {
    /// The frame covering the given physical address.
    pub fn containing_address(address: u64) -> (r: Frame)
        ensures
            r.number == address / PAGE_SIZE,
    {
        Frame { number: address / PAGE_SIZE }
    }

    /// First byte address of this frame.
    pub fn start_address(&self) -> (r: u64)
        requires
            self.number < 0x10_0000_0000_0000,
        ensures
            r == self.number * PAGE_SIZE,
    {
        self.number * PAGE_SIZE
    }

    fn clone(&self) -> (r: Frame)
        ensures
            r == *self,
    {
        Frame { number: self.number }
    }

    /// All frames from `start` to `end`, both included.
    pub fn range_inclusive(start: Frame, end: Frame) -> (r: FrameIter)
        ensures
            r.start == start,
            r.end == end,
    {
        FrameIter { start: start, end: end }
    }
}

/// Walks a frame range in ascending order.
pub struct FrameIter {
    pub start: Frame,
    pub end: Frame,
}

impl FrameIter {
    /// The next frame of the range, or `None` once the range is exhausted.
    pub fn next(&mut self) -> (r: Option<Frame>)
        requires
            old(self).start.number <= old(self).end.number ==> old(self).end.number
                < 0xffff_ffff_ffff_ffff,
        ensures
            if old(self).start.number <= old(self).end.number {
                &&& r == Some(Frame { number: old(self).start.number })
                &&& final(self).start.number == old(self).start.number + 1
                &&& final(self).end == old(self).end
            } else {
                &&& r == None::<Frame>
                &&& *final(self) == *old(self)
            },
    {
        if self.start.number <= self.end.number {
            let frame = self.start.clone();
            self.start.number = self.start.number + 1;
            Some(frame)
        } else {
            None
        }
    }
}

/// A contiguous physically-usable region of memory, supplied by the
/// bootloader's memory map.
#[derive(Debug, Clone, Copy, PartialEq, Eq, Structural)]
pub struct MemoryArea {
    /// First byte address of the region.
    pub base_addr: u64,
    /// Size of the region in bytes.
    pub length: u64,
}

/// Hands out physical frames. The contract is that of a monotonic bump
/// allocator: each frame handed out is the least usable frame at or past a
/// cursor, never one handed out before, and never one of the excluded ranges;
/// deallocation is accepted but has no effect.
pub trait FrameAllocator: Sized {
    /// The frame numbers handed out so far, in order.
    spec fn handed_out(&self) -> Seq<int>;

    /// Frame numbers this allocator must never hand out.
    spec fn excluded(&self, n: int) -> bool;

    /// Frame numbers lying in a region this allocator manages.
    spec fn available(&self, n: int) -> bool;

    /// All frames below this number are spoken for.
    spec fn cursor(&self) -> int;

    /// The allocator's internal invariant.
    spec fn inv(&self) -> bool;

    /// The next unused frame, or `None` when the areas are exhausted, which
    /// the caller must treat as fatal.
    fn allocate_frame(&mut self) -> (r: Option<Frame>)
        requires
            old(self).inv(),
        ensures
            final(self).inv(),
            forall|n: int| final(self).excluded(n) == old(self).excluded(n),
            forall|n: int| final(self).available(n) == old(self).available(n),
            match r {
                Some(f) => {
                    &&& f.number < 0x100_0000_0000
                    &&& old(self).available(f.number as int)
                    &&& !old(self).excluded(f.number as int)
                    &&& f.number >= old(self).cursor()
                    &&& forall|m: int|
                        old(self).cursor() <= m < f.number ==> !(old(self).available(m)
                            && !old(self).excluded(m))
                    &&& !old(self).handed_out().contains(f.number as int)
                    &&& final(self).handed_out() == old(self).handed_out().push(f.number as int)
                    &&& final(self).cursor() == f.number + 1
                },
                None => {
                    &&& final(self).handed_out() == old(self).handed_out()
                    &&& final(self).cursor() >= old(self).cursor()
                    &&& forall|m: int|
                        m >= old(self).cursor() ==> !(old(self).available(m) && !old(self).excluded(
                        m))
                    &&& forall|m: int|
                        m >= final(self).cursor() ==> !(final(self).available(m)
                            && !final(self).excluded(m))
                },
            },
;

    /// Returns a frame to the allocator; a monotonic allocator takes it and
    /// does nothing.
    fn deallocate_frame(&mut self, frame: Frame)
        requires
            old(self).inv(),
        ensures
            final(self).inv(),
            final(self).handed_out() == old(self).handed_out(),
            final(self).cursor() == old(self).cursor(),
            forall|n: int| final(self).excluded(n) == old(self).excluded(n),
            forall|n: int| final(self).available(n) == old(self).available(n),
;
}

/// The smallest section start address (meaningful only for nonempty lists).
pub open spec fn seq_min_addr(sections: Seq<crate::memory::entry::ElfSectionInfo>) -> int
    decreases sections.len(),
{
    if sections.len() == 0 {
        0
    } else if sections.len() == 1 {
        sections[0].addr as int
    } else {
        let t = seq_min_addr(sections.drop_last());
        if sections.last().addr < t {
            sections.last().addr as int
        } else {
            t
        }
    }
}

/// The largest section end address (meaningful only for nonempty lists).
pub open spec fn seq_max_end(sections: Seq<crate::memory::entry::ElfSectionInfo>) -> int
    decreases sections.len(),
{
    if sections.len() == 0 {
        0
    } else if sections.len() == 1 {
        sections[0].addr + sections[0].size
    } else {
        let t = seq_max_end(sections.drop_last());
        if sections.last().addr + sections.last().size > t {
            sections.last().addr + sections.last().size
        } else {
            t
        }
    }
}

/// Where the kernel image lies: the lowest start and the highest end over
/// the boot information's sections, or nothing when there are none.
pub fn kernel_bounds(sections: &Vec<crate::memory::entry::ElfSectionInfo>) -> (r: Option<
    (u64, u64),
>)
    requires
        forall|i: int|
            0 <= i < sections@.len() ==> (#[trigger] sections@[i]).addr + sections@[i].size
                < 0x1_0000_0000_0000_0000,
    ensures
        r is Some <==> sections@.len() > 0,
        r matches Some(b) ==> b.0 == seq_min_addr(sections@) && b.1 == seq_max_end(sections@),
{
    if sections.len() == 0 {
        return None;
    }
    let mut lo: u64 = sections[0].addr;
    let mut hi: u64 = sections[0].addr + sections[0].size;
    let mut i: usize = 1;
    while i < sections.len()
        invariant
            1 <= i <= sections@.len(),
            forall|k: int|
                0 <= k < sections@.len() ==> (#[trigger] sections@[k]).addr + sections@[k].size
                    < 0x1_0000_0000_0000_0000,
            lo == seq_min_addr(sections@.subrange(0, i as int)),
            hi == seq_max_end(sections@.subrange(0, i as int)),
        decreases sections@.len() - i,
    {
        let s = sections[i];
        if s.addr < lo {
            lo = s.addr;
        }
        if s.addr + s.size > hi {
            hi = s.addr + s.size;
        }
        proof {
            assert(sections@.subrange(0, i as int + 1).drop_last() =~= sections@.subrange(
                0,
                i as int,
            ));
            assert(sections@.subrange(0, i as int + 1).last() == sections@[i as int]);
        }
        i = i + 1;
    }
    proof {
        assert(sections@.subrange(0, sections@.len() as int) =~= sections@);
    }
    Some((lo, hi))
}

/// The allocator has nothing left: no frame at or past its cursor lies in a
/// managed region without being excluded.
pub open spec fn allocator_exhausted<A: FrameAllocator>(a: A) -> bool {
    forall|m: int| m >= a.cursor() ==> !(a.available(m) && !a.excluded(m))
}

/// Every frame handed out before is still in place, in order, possibly
/// followed by new ones.
pub open spec fn handed_prefix(pre: Seq<int>, post: Seq<int>) -> bool {
    &&& pre.len() <= post.len()
    &&& forall|k: int| 0 <= k < pre.len() ==> post[k] == pre[k]
}

/// `n` is the frame the allocator must hand out next: the least frame at or
/// past the cursor that lies in a managed region and is not excluded.
pub open spec fn is_first_frame<A: FrameAllocator>(a: A, n: int) -> bool {
    &&& a.available(n)
    &&& !a.excluded(n)
    &&& n >= a.cursor()
    &&& forall|m: int| a.cursor() <= m < n ==> !(a.available(m) && !a.excluded(m))
}

} // verus!
