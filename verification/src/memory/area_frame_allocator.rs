//! A monotonic bump allocator over the bootloader's usable-memory areas,
//! skipping the kernel image and the boot-information blob. Frames are handed
//! out in ascending order and never reclaimed.

use vstd::prelude::*;
use vstd::arithmetic::div_mod::{lemma_div_is_ordered, lemma_fundamental_div_mod};
use crate::memory::{Frame, FrameAllocator, MemoryArea, PAGE_SIZE};

verus! {

/// Frame `n` overlaps the byte range `[start, end)`.
pub open spec fn frame_overlaps(n: int, start: int, end: int) -> bool {
    4096 * n < end && start < 4096 * n + 4096
}

/// First frame of the area.
pub open spec fn area_first_frame(a: MemoryArea) -> int {
    a.base_addr as int / 4096
}

/// Last frame of the area (meaningful only when it has content).
pub open spec fn area_last_frame(a: MemoryArea) -> int {
    (a.base_addr + a.length - 1) / 4096
}

/// Frame `n` lies in the area.
pub open spec fn area_has_frame(a: MemoryArea, n: int) -> bool {
    a.length > 0 && area_first_frame(a) <= n <= area_last_frame(a)
}

/// Hands out unused frames from a supplied list of physical memory regions;
/// strictly monotonic, with the kernel image and the boot-information blob
/// excluded.
pub struct AreaFrameAllocator {
    /// The current candidate frame; everything below is spoken for.
    pub next_free_frame: Frame,
    /// The usable regions, as the bootloader reported them.
    pub areas: Vec<MemoryArea>,
    /// First byte of the kernel image.
    pub kernel_start: u64,
    /// First byte past the kernel image.
    pub kernel_end: u64,
    /// First byte of the boot-information blob.
    pub multiboot_start: u64,
    /// First byte past the boot-information blob.
    pub multiboot_end: u64,
    /// The frame numbers handed out so far, in order.
    pub handed: Ghost<Seq<int>>,
}

impl AreaFrameAllocator {
    /// Everything the allocator ever hands out stays below this number.
    pub open spec fn frame_bound(&self) -> int {
        let k = (self.kernel_end as int - 1) / 4096;
        let m = (self.multiboot_end as int - 1) / 4096;
        let a = max_area_last(self.areas@);
        (if k >= m && k >= a {
            k
        } else if m >= a {
            m
        } else {
            a
        }) + 2
    }

    /// Construction takes the kernel image bounds, the boot-information blob
    /// bounds (both ends exclusive), and the list of usable memory areas,
    /// which must lie within the 52-bit physical address space.
    pub fn new(
        kernel_start: u64,
        kernel_end: u64,
        multiboot_start: u64,
        multiboot_end: u64,
        areas: Vec<MemoryArea>,
    ) -> (r: AreaFrameAllocator)
        requires
            forall|i: int|
                0 <= i < areas@.len() ==> (#[trigger] areas@[i]).base_addr + areas@[i].length
                    <= 0x10_0000_0000_0000,
        ensures
            r.inv(),
            r.handed_out() == Seq::<int>::empty(),
            r.cursor() == 0,
            forall|n: int|
                r.excluded(n) == (frame_overlaps(n, kernel_start as int, kernel_end as int)
                    || frame_overlaps(n, multiboot_start as int, multiboot_end as int)),
            forall|n: int|
                r.available(n) == exists|i: int|
                    0 <= i < areas@.len() && area_has_frame(#[trigger] areas@[i], n),
    {
        let r = AreaFrameAllocator {
            next_free_frame: Frame::containing_address(0),
            areas: areas,
            kernel_start: kernel_start,
            kernel_end: kernel_end,
            multiboot_start: multiboot_start,
            multiboot_end: multiboot_end,
            handed: Ghost(Seq::empty()),
        };
        proof {
            lemma_max_area_last(r.areas@);
        }
        r
    }
}

/// The largest last-frame number over all areas (zero for none).
pub open spec fn max_area_last(areas: Seq<MemoryArea>) -> int
    decreases areas.len(),
{
    if areas.len() == 0 {
        0
    } else {
        let t = max_area_last(areas.drop_last());
        if area_last_frame(areas.last()) >= t {
            area_last_frame(areas.last())
        } else {
            t
        }
    }
}

/// Every area's last frame is at most the maximum, and the maximum is never
/// negative.
pub proof fn lemma_max_area_last(areas: Seq<MemoryArea>)
    ensures
        max_area_last(areas) >= 0,
        forall|i: int|
            0 <= i < areas.len() ==> area_last_frame(#[trigger] areas[i]) <= max_area_last(areas),
    decreases areas.len(),
{
    if areas.len() > 0 {
        lemma_max_area_last(areas.drop_last());
        assert forall|i: int|
            0 <= i < areas.len() implies area_last_frame(#[trigger] areas[i]) <= max_area_last(
            areas,
        ) by {
            if i < areas.len() - 1 {
                assert(areas.drop_last()[i] == areas[i]);
            } else {
                assert(areas[i] == areas.last());
            }
        }
    }
}

/// A frame at or below `(e - 1) / 4096` starts below `e`.
proof fn lemma_frame_below_end(m: int, e: int)
    requires
        0 <= m,
        1 <= e,
        m <= (e - 1) / 4096,
    ensures
        4096 * m < e,
{
    lemma_fundamental_div_mod(e - 1, 4096);
}

/// A frame starting below `e` is at or below `(e - 1) / 4096`.
proof fn lemma_frame_before_end(c: int, e: int)
    requires
        0 <= c,
        4096 * c < e,
    ensures
        c <= (e - 1) / 4096,
{
    lemma_fundamental_div_mod(e - 1, 4096);
    if c > (e - 1) / 4096 {
        assert(4096 * c >= 4096 * ((e - 1) / 4096 + 1));
    }
}

impl FrameAllocator for AreaFrameAllocator {
    open spec fn handed_out(&self) -> Seq<int> {
        self.handed@
    }

    open spec fn excluded(&self, n: int) -> bool {
        frame_overlaps(n, self.kernel_start as int, self.kernel_end as int) || frame_overlaps(
            n,
            self.multiboot_start as int,
            self.multiboot_end as int,
        )
    }

    open spec fn available(&self, n: int) -> bool {
        exists|i: int| 0 <= i < self.areas@.len() && area_has_frame(#[trigger] self.areas@[i], n)
    }

    open spec fn cursor(&self) -> int {
        self.next_free_frame.number as int
    }

    open spec fn inv(&self) -> bool {
        &&& forall|i: int|
            0 <= i < self.areas@.len() ==> (#[trigger] self.areas@[i]).base_addr
                + self.areas@[i].length <= 0x10_0000_0000_0000
        &&& forall|k: int|
            0 <= k < self.handed@.len() ==> 0 <= #[trigger] self.handed@[k] < self.cursor()
        &&& forall|k: int|
            0 <= k < self.handed@.len() ==> self.available(#[trigger] self.handed@[k])
                && !self.excluded(self.handed@[k])
        &&& forall|k: int, l: int|
            0 <= k < l < self.handed@.len() ==> #[trigger] self.handed@[k] < #[trigger] self.handed@[l]
        &&& self.cursor() <= self.frame_bound()
    }

    #[verifier::rlimit(50)]
    fn allocate_frame(&mut self) -> (r: Option<Frame>) {
        proof {
            lemma_max_area_last(self.areas@);
        }
        loop
            invariant
                self.inv(),
                self.areas == old(self).areas,
                self.kernel_start == old(self).kernel_start,
                self.kernel_end == old(self).kernel_end,
                self.multiboot_start == old(self).multiboot_start,
                self.multiboot_end == old(self).multiboot_end,
                self.handed@ == old(self).handed@,
                self.next_free_frame.number >= old(self).next_free_frame.number,
                forall|m: int|
                    old(self).cursor() <= m < self.cursor() ==> !(old(self).available(m) && !old(
                        self,
                    ).excluded(m)),
            decreases self.frame_bound() - self.cursor(),
        {
            proof {
                assert(self.areas@ == old(self).areas@);
                assert forall|m: int| old(self).available(m) implies self.available(m) by {
                    let i = choose|i: int|
                        0 <= i < old(self).areas@.len() && area_has_frame(
                            #[trigger] old(self).areas@[i],
                            m,
                        );
                    assert(area_has_frame(self.areas@[i], m));
                }
                assert forall|m: int| self.available(m) implies old(self).available(m) by {
                    let i = choose|i: int|
                        0 <= i < self.areas@.len() && area_has_frame(#[trigger] self.areas@[i], m);
                    assert(area_has_frame(old(self).areas@[i], m));
                }
            }
            let ghost iter_start = *self;
            // Select the area with the lowest base address whose last frame
            // is at or past the candidate.
            let mut best: Option<usize> = None;
            let mut bi: usize = 0;
            while bi < self.areas.len()
                invariant
                    *self == iter_start,
                    bi <= self.areas@.len(),
                    self.inv(),
                    match best {
                        Some(k) => {
                            &&& k < self.areas@.len()
                            &&& self.areas@[k as int].length > 0
                            &&& area_last_frame(self.areas@[k as int]) >= self.cursor()
                            &&& forall|j: int|
                                0 <= j < bi && (#[trigger] self.areas@[j]).length > 0
                                    && area_last_frame(self.areas@[j]) >= self.cursor()
                                    ==> self.areas@[k as int].base_addr <= self.areas@[j].base_addr
                        },
                        None => forall|j: int|
                            0 <= j < bi ==> !((#[trigger] self.areas@[j]).length > 0
                                && area_last_frame(self.areas@[j]) >= self.cursor()),
                    },
                decreases self.areas@.len() - bi,
            {
                let area = self.areas[bi];
                if area.length > 0 {
                    let last = Frame::containing_address(area.base_addr + area.length - 1);
                    if last.number >= self.next_free_frame.number {
                        best = match best {
                            None => Some(bi),
                            Some(k) => {
                                if self.areas[k].base_addr <= area.base_addr {
                                    Some(k)
                                } else {
                                    Some(bi)
                                }
                            },
                        };
                    }
                }
                bi = bi + 1;
            }
            let ai = match best {
                None => {
                    // No area reaches the candidate: the memory is exhausted.
                    proof {
                        assert forall|m: int| m >= old(self).cursor() implies !(old(
                        self,
                        ).available(m) && !old(self).excluded(m)) by {
                            if old(self).available(m) && m >= self.cursor() {
                                let i = choose|i: int|
                                    0 <= i < old(self).areas@.len() && area_has_frame(
                                        #[trigger] old(self).areas@[i],
                                        m,
                                    );
                                assert(area_has_frame(self.areas@[i], m));
                                assert(area_last_frame(self.areas@[i]) >= m);
                            }
                        }
                    }
                    return None;
                },
                Some(ai) => ai,
            };
            let area = self.areas[ai];
            let first = Frame::containing_address(area.base_addr);
            if self.next_free_frame.number < first.number {
                // The candidate lies below the chosen area: every frame in
                // between lies in no eligible area at all.
                proof {
                    assert forall|m: int|
                        self.cursor() <= m < first.number implies !(old(self).available(m) && !old(
                    self,
                    ).excluded(m)) by {
                        if old(self).available(m) {
                            let i = choose|i: int|
                                0 <= i < old(self).areas@.len() && area_has_frame(
                                    #[trigger] old(self).areas@[i],
                                    m,
                                );
                            assert(area_has_frame(self.areas@[i], m));
                            assert(area_last_frame(self.areas@[i]) >= m >= self.cursor());
                            assert(self.areas@[ai as int].base_addr <= self.areas@[i].base_addr);
                            lemma_div_is_ordered(
                                self.areas@[ai as int].base_addr as int,
                                self.areas@[i].base_addr as int,
                                4096,
                            );
                            assert(area_first_frame(self.areas@[i]) <= m);
                        }
                    }
                }
                self.next_free_frame.number = first.number;
            }
            proof {
                lemma_div_is_ordered(area.base_addr as int, area.base_addr + area.length - 1, 4096);
                assert(self.cursor() <= area_last_frame(self.areas@[ai as int]));
            }
            let fstart = self.next_free_frame.start_address();
            if fstart < self.kernel_end && self.kernel_start < fstart + PAGE_SIZE {
                // The candidate overlaps the kernel image: skip past it.
                let ghost c = self.cursor();
                let next = (self.kernel_end - 1) / PAGE_SIZE + 1;
                proof {
                    lemma_frame_before_end(c, self.kernel_end as int);
                    assert forall|m: int| c <= m < next implies old(self).excluded(m) by {
                        lemma_frame_below_end(m, self.kernel_end as int);
                    }
                }
                self.next_free_frame.number = next;
            } else if fstart < self.multiboot_end && self.multiboot_start < fstart + PAGE_SIZE {
                // The candidate overlaps the boot-information blob: skip it.
                let ghost c = self.cursor();
                let next = (self.multiboot_end - 1) / PAGE_SIZE + 1;
                proof {
                    lemma_frame_before_end(c, self.multiboot_end as int);
                    assert forall|m: int| c <= m < next implies old(self).excluded(m) by {
                        lemma_frame_below_end(m, self.multiboot_end as int);
                    }
                }
                self.next_free_frame.number = next;
            } else {
                let frame = Frame { number: self.next_free_frame.number };
                self.next_free_frame.number = self.next_free_frame.number + 1;
                self.handed = Ghost(self.handed@.push(frame.number as int));
                proof {
                    assert(area_has_frame(self.areas@[ai as int], frame.number as int));
                    assert(old(self).available(frame.number as int)) by {
                        assert(area_has_frame(old(self).areas@[ai as int], frame.number as int));
                    }
                    assert(!old(self).excluded(frame.number as int));
                    assert(self.handed@ == old(self).handed@.push(frame.number as int));
                    assert(!old(self).handed_out().contains(frame.number as int)) by {
                        if old(self).handed_out().contains(frame.number as int) {
                            let k = choose|k: int|
                                0 <= k < old(self).handed@.len() && old(self).handed@[k]
                                    == frame.number as int;
                        }
                    }
                    assert(self.available(frame.number as int));
                    assert(!self.excluded(frame.number as int));
                    assert forall|k: int| 0 <= k < self.handed@.len() implies self.available(
                        #[trigger] self.handed@[k],
                    ) && !self.excluded(self.handed@[k]) by {
                        if k < self.handed@.len() - 1 {
                            assert(iter_start.available(self.handed@[k]) && !iter_start.excluded(
                                self.handed@[k],
                            ));
                            let i = choose|i: int|
                                0 <= i < iter_start.areas@.len() && area_has_frame(
                                    #[trigger] iter_start.areas@[i],
                                    self.handed@[k],
                                );
                            assert(area_has_frame(self.areas@[i], self.handed@[k]));
                        }
                    }
                    assert(forall|i: int|
                        0 <= i < self.areas@.len() ==> (#[trigger] self.areas@[i]).base_addr
                            + self.areas@[i].length <= 0x10_0000_0000_0000);
                    assert(forall|k: int|
                        0 <= k < self.handed@.len() ==> 0 <= #[trigger] self.handed@[k]
                            < self.cursor());
                    assert(forall|k: int, l: int|
                        0 <= k < l < self.handed@.len() ==> #[trigger] self.handed@[k]
                            < #[trigger] self.handed@[l]);
                    lemma_max_area_last(self.areas@);
                    assert(area_last_frame(self.areas@[ai as int]) <= max_area_last(self.areas@));
                    assert(self.cursor() <= self.frame_bound());
                    assert(self.inv());
                }
                return Some(frame);
            }
        }
    }

    fn deallocate_frame(&mut self, frame: Frame) {
        // Deliberately nothing: this one-shot boot-time allocator never
        // reuses a frame.
    }
}

/// No frame the allocator has handed out is handed out twice, and none of
/// them overlaps the kernel image or the boot-information blob.
pub proof fn lemma_handed_frames_sound(a: &AreaFrameAllocator)
    requires
        a.inv(),
    ensures
        forall|k: int, l: int|
            0 <= k < a.handed_out().len() && 0 <= l < a.handed_out().len() && k != l
                ==> #[trigger] a.handed_out()[k] != #[trigger] a.handed_out()[l],
        forall|k: int|
            0 <= k < a.handed_out().len() ==> !a.excluded(#[trigger] a.handed_out()[k]),
{
}

} // verus!
