//! The four-level page-table hierarchy: translate, map and unmap, plus the
//! temporary table used to stage a full replacement hierarchy at boot.

use vstd::prelude::*;
use vstd::pervasive::unreached;
use vstd::arithmetic::div_mod::{lemma_div_multiples_vanish, lemma_fundamental_div_mod};
use crate::memory::{allocator_exhausted, handed_prefix, is_first_frame, Frame,
    FrameAllocator, PAGE_SIZE};
use crate::memory::page::{canonical_address, lemma_page_index_bounds, Page};
use crate::memory::entry::{Entry, EntryFlags, ElfSectionInfo};
use crate::memory::entry::{flag_set, flags_wf, lemma_zero_entry_bits, spec_frame_number,
    spec_section_flags};
use crate::memory::entry::{ALL_FLAGS, HUGE_PAGE, PRESENT, WRITABLE};
use crate::memory::table::{
    child_table, entry_at, l1_map, l2_map, l3_map, l4_map, lemma_empty_table_props, lemma_grow2,
    lemma_grow3, lemma_grow4, lemma_l4_same_slot, lemma_replace_child2, lemma_replace_child3,
    lemma_replace_child4, lemma_set_huge2, lemma_set_huge3, lemma_set_leaf, points_to_table,
    table_empty, table_shape, wf1, wf2, wf3, wf4, Table, RECURSIVE_INDEX,
};

verus! {

/// Why a mapping operation was refused. All of these mean a broken caller
/// contract or an exhausted machine, not a runtime condition to retry.
#[derive(Debug, Clone, Copy, PartialEq, Eq, Structural)]
pub enum MapError {
    /// The frame allocator has no frame left.
    FrameExhausted,
    /// The target entry is already in use.
    AlreadyMapped,
    /// The walk ran into a huge mapping, which this code does not descend.
    HugePage,
    /// The page is not mapped.
    NotMapped,
    /// The page walks through the level-4 slot reserved for the recursive
    /// self-mapping.
    ReservedEntry,
    /// The frame does not meet the alignment a huge mapping requires.
    Misaligned,
}

/// A four-level paging hierarchy rooted in one level-4 table.
pub struct PageTable {
    /// The root table.
    pub p4: Table,
}

impl PageTable {
    /// The hierarchy is well formed at every level.
    pub open spec fn wf(&self) -> bool {
        wf4(self.p4)
    }

    /// What the hierarchy maps at the given four indices: the frame number
    /// and the raw entry granting it.
    pub open spec fn idx_map(&self, i4: int, i3: int, i2: int, i1: int) -> Option<(int, u64)> {
        l4_map(self.p4, i4, i3, i2, i1)
    }

    /// What the hierarchy maps for `page`.
    pub open spec fn page_map(&self, page: Page) -> Option<(int, u64)> {
        self.idx_map(
            page.spec_p4_index() as int,
            page.spec_p3_index() as int,
            page.spec_p2_index() as int,
            page.spec_p1_index() as int,
        )
    }

    /// The frame `page` translates to, if any.
    pub open spec fn spec_translate_page(&self, page: Page) -> Option<Frame> {
        match self.page_map(page) {
            Some((n, e)) => Some(Frame { number: n as u64 }),
            None => None,
        }
    }

    /// The physical address `address` translates to, if any.
    pub open spec fn spec_translate(&self, address: u64) -> Option<u64> {
        match self.spec_translate_page(Page { number: address / PAGE_SIZE }) {
            Some(f) => Some(((f.number * PAGE_SIZE) + (address % PAGE_SIZE)) as u64),
            None => None,
        }
    }

    /// A fresh hierarchy mapping nothing.
    pub fn new() -> (r: PageTable)
        ensures
            r.wf(),
            forall|i4: int, i3: int, i2: int, i1: int|
                0 <= i4 < 512 ==> r.idx_map(i4, i3, i2, i1) is None,
            forall|i: int| 0 <= i < 512 ==> entry_at(r.p4, i) == 0,
    {
        PageTable { p4: Table::new() }
    }

    /// Translates a virtual page into the physical frame it is mapped to.
    /// Walks level 4 down to level 1; when the walk stops early, a present
    /// huge entry at level 3 (1 GiB) or level 2 (2 MiB) still yields a frame.
    pub fn translate_page(&self, page: Page) -> (r: Option<Frame>)
        requires
            self.wf(),
        ensures
            r == self.spec_translate_page(page),
            r matches Some(f) ==> f.number < 0x100_0004_0000,
    {
        proof {
            lemma_frame_number_bound();
        }
        let i4 = page.p4_index();
        let i3 = page.p3_index();
        let i2 = page.p2_index();
        let i1 = page.p1_index();
        match &self.p4.children[i4] {
            None => None,
            Some(p3) => {
                let e3: Entry = p3.entries[i3];
                match &p3.children[i3] {
                    None => {
                        // No level-2 table: only a 1 GiB huge entry maps here.
                        if let Some(start_frame) = e3.pointed_frame() {
                            if e3.flags().contains(EntryFlags { bits: HUGE_PAGE }) {
                                // A 1 GiB page; well-formedness gives the alignment.
                                assert(start_frame.number % 262144 == 0);
                                Some(
                                    Frame {
                                        number: start_frame.number + ((i2 as u64) * 512 + (
                                        i1 as u64)),
                                    },
                                )
                            } else {
                                None
                            }
                        } else {
                            None
                        }
                    },
                    Some(p2) => {
                        let e2: Entry = p2.entries[i2];
                        match &p2.children[i2] {
                            None => {
                                // No level-1 table: only a 2 MiB huge entry maps here.
                                if let Some(start_frame) = e2.pointed_frame() {
                                    if e2.flags().contains(EntryFlags { bits: HUGE_PAGE }) {
                                        // A 2 MiB page; well-formedness gives the alignment.
                                        assert(start_frame.number % 512 == 0);
                                        Some(Frame { number: start_frame.number + (i1 as u64) })
                                    } else {
                                        None
                                    }
                                } else {
                                    None
                                }
                            },
                            Some(p1) => {
                                let e1: Entry = p1.entries[i1];
                                e1.pointed_frame()
                            },
                        }
                    },
                }
            },
        }
    }

    /// Translates a virtual address into the physical address it is mapped
    /// to: the frame of its page, with the offset inside the page reapplied.
    pub fn translate(&self, virtual_address: u64) -> (r: Option<u64>)
        requires
            self.wf(),
            canonical_address(virtual_address),
        ensures
            r == self.spec_translate(virtual_address),
    {
        let offset = virtual_address % PAGE_SIZE;
        match self.translate_page(Page::containing_address(virtual_address)) {
            Some(frame) => Some(frame.start_address() + offset),
            None => None,
        }
    }
}

/// The entry `ensure_child` writes for a fresh child table holding frame
/// `n`: the frame's address with PRESENT and WRITABLE.
pub open spec fn table_pointer_entry(n: int) -> u64 {
    ((n * 4096) as u64) | (PRESENT | WRITABLE)
}

/// How many tables the walk for `(i4, i3, i2)` still lacks, each costing one
/// allocator frame on `map_to`'s way down.
pub open spec fn walk_missing_levels(pre: PageTable, i4: int, i3: int, i2: int) -> int {
    match pre.p4.children@[i4] {
        None => 3,
        Some(p3) => match p3.children@[i3] {
            None => 2,
            Some(p2) => if p2.children@[i2] is Some {
                0
            } else {
                1
            },
        },
    }
}

/// The walk for `(i4, i3, i2)` runs into a present huge entry at level 3 or
/// level 2 before reaching level 1.
pub open spec fn walk_hits_huge(pre: PageTable, i4: int, i3: int, i2: int) -> bool {
    match pre.p4.children@[i4] {
        Some(p3) => {
            let e3 = entry_at(*p3, i3);
            (flag_set(e3, PRESENT) && flag_set(e3, HUGE_PAGE)) || (match p3.children@[i3] {
                Some(p2) => {
                    let e2 = entry_at(*p2, i2);
                    flag_set(e2, PRESENT) && flag_set(e2, HUGE_PAGE)
                },
                None => false,
            })
        },
        None => false,
    }
}

/// A table stands at every level of the walk for `(i4, i3, i2)`.
pub open spec fn walk_complete(pre: PageTable, i4: int, i3: int, i2: int) -> bool {
    match pre.p4.children@[i4] {
        Some(p3) => match p3.children@[i3] {
            Some(p2) => p2.children@[i2] is Some,
            None => false,
        },
        None => false,
    }
}

/// The raw level-1 entry at the end of a complete walk (zero where the walk
/// is incomplete).
pub open spec fn walk_leaf(pre: PageTable, i4: int, i3: int, i2: int, i1: int) -> u64 {
    match pre.p4.children@[i4] {
        Some(p3) => match p3.children@[i3] {
            Some(p2) => match p2.children@[i2] {
                Some(p1) => entry_at(*p1, i1),
                None => 0,
            },
            None => 0,
        },
        None => 0,
    }
}

/// Every mapping of the hierarchy is the same in `pre` and `post`.
pub open spec fn mappings_unchanged(pre: PageTable, post: PageTable) -> bool {
    forall|j4: int, j3: int, j2: int, j1: int|
        0 <= j4 < 512 && 0 <= j3 < 512 && 0 <= j2 < 512 && 0 <= j1 < 512
            ==> #[trigger] post.idx_map(j4, j3, j2, j1) == pre.idx_map(j4, j3, j2, j1)
}

/// Every mapping but the one at `(i4, i3, i2, i1)` is the same in `pre` and
/// `post`.
pub open spec fn mappings_unchanged_except(
    pre: PageTable,
    post: PageTable,
    i4: int,
    i3: int,
    i2: int,
    i1: int,
) -> bool {
    forall|j4: int, j3: int, j2: int, j1: int|
        0 <= j4 < 512 && 0 <= j3 < 512 && 0 <= j2 < 512 && 0 <= j1 < 512 && !(j4 == i4 && j3 == i3
            && j2 == i2 && j1 == i1) ==> #[trigger] post.idx_map(j4, j3, j2, j1) == pre.idx_map(
            j4,
            j3,
            j2,
            j1,
        )
}

/// Reading a single flag bit from the truncated flag bits of an entry reads
/// the same bit of the raw entry.
proof fn lemma_flag_bits()
    ensures
        forall|v: u64| ((v & ALL_FLAGS) & PRESENT == PRESENT) == flag_set(v, PRESENT),
        forall|v: u64| ((v & ALL_FLAGS) & HUGE_PAGE == HUGE_PAGE) == flag_set(v, HUGE_PAGE),
{
    assert forall|v: u64| ((v & ALL_FLAGS) & PRESENT == PRESENT) == flag_set(v, PRESENT) by {
        assert(((v & 0x8000_0000_0000_01ffu64) & 1u64 == 1u64) == (v & 1u64 == 1u64))
            by (bit_vector);
    }
    assert forall|v: u64| ((v & ALL_FLAGS) & HUGE_PAGE == HUGE_PAGE) == flag_set(v, HUGE_PAGE) by {
        assert(((v & 0x8000_0000_0000_01ffu64) & 0x80u64 == 0x80u64) == (v & 0x80u64 == 0x80u64))
            by (bit_vector);
    }
}

/// Makes the entry at slot `i` of `t` point at a child table, allocating and
/// installing a fresh zeroed one when the slot is unused; this is how the
/// intermediate levels of the hierarchy come into existence lazily.
fn ensure_child<A: FrameAllocator>(t: &mut Table, i: usize, allocator: &mut A) -> (r: Result<
    (),
    MapError,
>)
    requires
        i < 512,
        table_shape(*old(t)),
        points_to_table(entry_at(*old(t), i as int)) ==> old(t).children@[i as int] is Some,
        old(allocator).inv(),
    ensures
        final(allocator).inv(),
        forall|n: int| final(allocator).excluded(n) == old(allocator).excluded(n),
        forall|n: int| final(allocator).available(n) == old(allocator).available(n),
        final(allocator).cursor() >= old(allocator).cursor(),
        table_shape(*final(t)),
        match r {
            Ok(()) => {
                &&& points_to_table(entry_at(*final(t), i as int))
                &&& final(t).children@[i as int] is Some
                &&& if points_to_table(entry_at(*old(t), i as int)) {
                    &&& *final(t) == *old(t)
                    &&& final(allocator).handed_out() == old(allocator).handed_out()
                    &&& final(allocator).cursor() == old(allocator).cursor()
                } else {
                    &&& !flag_set(entry_at(*old(t), i as int), PRESENT)
                    &&& final(t).entries@ == old(t).entries@.update(
                        i as int,
                        final(t).entries@[i as int],
                    )
                    &&& final(t).children@ == old(t).children@.update(
                        i as int,
                        final(t).children@[i as int],
                    )
                    &&& (final(t).children@[i as int] matches Some(c) && table_empty(*c))
                    &&& entry_at(*final(t), i as int) == table_pointer_entry(
                        spec_frame_number(entry_at(*final(t), i as int)) as int,
                    )
                    &&& final(allocator).handed_out() == old(allocator).handed_out().push(
                        spec_frame_number(entry_at(*final(t), i as int)) as int,
                    )
                }
            },
            Err(e) => {
                &&& *final(t) == *old(t)
                &&& final(allocator).handed_out() == old(allocator).handed_out()
                &&& (e == MapError::HugePage || e == MapError::FrameExhausted)
                &&& (e == MapError::HugePage ==> final(allocator).cursor() == old(
                    allocator,
                ).cursor())
                &&& (e == MapError::FrameExhausted ==> !flag_set(
                    entry_at(*old(t), i as int),
                    PRESENT,
                ) && allocator_exhausted(*final(allocator)))
            },
        },
        r == Err::<(), MapError>(MapError::HugePage) <==> (flag_set(
            entry_at(*old(t), i as int),
            PRESENT,
        ) && flag_set(entry_at(*old(t), i as int), HUGE_PAGE)),
        points_to_table(entry_at(*old(t), i as int)) ==> r is Ok,
{
    proof {
        lemma_flag_bits();
    }
    let e: Entry = t.entries[i];
    if e.flags().contains(EntryFlags { bits: PRESENT }) {
        if e.flags().contains(EntryFlags { bits: HUGE_PAGE }) {
            // The walk ran into a huge mapping; descending is not supported.
            return Err(MapError::HugePage);
        }
        Ok(())
    } else {
        let frame = match allocator.allocate_frame() {
            Some(f) => f,
            None => { return Err(MapError::FrameExhausted) },
        };
        let mut child_entry = Entry::new();
        proof {
            assert((0x1u64 | 0x2u64) & 0x8000_0000_0000_01ffu64 == (0x1u64 | 0x2u64))
                by (bit_vector);
        }
        child_entry.set(frame, EntryFlags { bits: PRESENT | WRITABLE });
        proof {
            let n = frame.number;
            assert(n < 0x100_0000_0000u64 ==> ((((n * 4096) as u64) | (0x1u64 | 0x2u64)) & 1u64
                == 1u64) && ((((n * 4096) as u64) | (0x1u64 | 0x2u64)) & 0x80u64 != 0x80u64))
                by (bit_vector);
        }
        t.entries[i] = child_entry;
        t.children[i] = Some(Box::new(Table::new()));
        proof {
            assert(entry_at(*t, i as int) == table_pointer_entry(frame.number as int));
        }
        Ok(())
    }
}

/// What a successful `map_to` for `(i4, i3, i2, i1)` did to the raw entries,
/// level by level: off the walk every slot (entry and whole subtree) is
/// untouched; on the walk an entry that already pointed at a table is
/// untouched, and an absent one now holds a freshly allocated frame with
/// PRESENT and WRITABLE (the new frames are exactly the ones the allocator
/// handed out, in walk order); a freshly created table is zero everywhere off
/// the walk. `handed_pre` and `handed_post` are the allocator's hand-out
/// history before and after.
pub open spec fn walk_effect(
    pre: PageTable,
    post: PageTable,
    handed_pre: Seq<int>,
    handed_post: Seq<int>,
    i4: int,
    i3: int,
    i2: int,
    i1: int,
) -> bool {
    let had4 = pre.p4.children@[i4] is Some;
    let pre3 = child_table(pre.p4, i4);
    let post3 = child_table(post.p4, i4);
    let had3 = had4 && pre3.children@[i3] is Some;
    let pre2 = child_table(pre3, i3);
    let post2 = child_table(post3, i3);
    let had2 = had3 && pre2.children@[i2] is Some;
    let pre1 = child_table(pre2, i2);
    let post1 = child_table(post2, i2);
    let base = handed_pre.len() as int;
    let made4: int = if had4 {
        0
    } else {
        1
    };
    let made3: int = if had3 {
        0
    } else {
        1
    };
    &&& forall|j: int|
        0 <= j < 512 && j != i4 ==> post.p4.entries@[j] == pre.p4.entries@[j]
            && post.p4.children@[j] == pre.p4.children@[j]
    &&& post.p4.children@[i4] is Some
    &&& entry_at(post.p4, i4) == if had4 {
        entry_at(pre.p4, i4)
    } else {
        table_pointer_entry(handed_post[base])
    }
    &&& (!had4 ==> 0 <= handed_post[base] < 0x100_0000_0000)
    &&& if had4 {
        forall|j: int|
            0 <= j < 512 && j != i3 ==> post3.entries@[j] == pre3.entries@[j]
                && post3.children@[j] == pre3.children@[j]
    } else {
        forall|j: int|
            0 <= j < 512 && j != i3 ==> entry_at(post3, j) == 0 && (#[trigger] post3.children@[j])
                is None
    }
    &&& post3.children@[i3] is Some
    &&& entry_at(post3, i3) == if had3 {
        entry_at(pre3, i3)
    } else {
        table_pointer_entry(handed_post[base + made4])
    }
    &&& (!had3 ==> 0 <= handed_post[base + made4] < 0x100_0000_0000)
    &&& if had3 {
        forall|j: int|
            0 <= j < 512 && j != i2 ==> post2.entries@[j] == pre2.entries@[j]
                && post2.children@[j] == pre2.children@[j]
    } else {
        forall|j: int|
            0 <= j < 512 && j != i2 ==> entry_at(post2, j) == 0 && (#[trigger] post2.children@[j])
                is None
    }
    &&& post2.children@[i2] is Some
    &&& entry_at(post2, i2) == if had2 {
        entry_at(pre2, i2)
    } else {
        table_pointer_entry(handed_post[base + made4 + made3])
    }
    &&& (!had2 ==> 0 <= handed_post[base + made4 + made3] < 0x100_0000_0000)
    &&& if had2 {
        forall|j: int|
            0 <= j < 512 && j != i1 ==> post1.entries@[j] == pre1.entries@[j]
                && post1.children@[j] == pre1.children@[j]
    } else {
        forall|j: int|
            0 <= j < 512 && j != i1 ==> entry_at(post1, j) == 0 && (#[trigger] post1.children@[j])
                is None
    }
    &&& post1.children@[i1] is None
}

/// No walk anywhere in the hierarchy runs into a huge entry: everything
/// present at levels 4 to 2 points at a child table.
pub open spec fn no_huge_walks(pt: PageTable) -> bool {
    forall|i4: int, i3: int, i2: int|
        0 <= i4 < 512 && 0 <= i3 < 512 && 0 <= i2 < 512 ==> !walk_hits_huge(pt, i4, i3, i2)
}

/// A table-pointer entry for a real frame is present and never huge.
pub proof fn lemma_table_pointer_not_huge(n: int)
    requires
        0 <= n < 0x100_0000_0000,
    ensures
        flag_set(table_pointer_entry(n), PRESENT),
        !flag_set(table_pointer_entry(n), HUGE_PAGE),
{
    let m = n as u64;
    assert(m < 0x100_0000_0000u64 ==> ((((m * 4096) as u64) | (0x1u64 | 0x2u64)) & 1u64 == 1u64)
        && ((((m * 4096) as u64) | (0x1u64 | 0x2u64)) & 0x80u64 != 0x80u64)) by (bit_vector);
}

/// A successful `map_to` stays local: it introduces no huge entry anywhere,
/// and every complete walk ending in a nonzero leaf off the mapped spot
/// already stood, with the same leaf, before the call.
pub proof fn lemma_walk_effect_localizes(
    pre: PageTable,
    post: PageTable,
    handed_pre: Seq<int>,
    handed_post: Seq<int>,
    i4: int,
    i3: int,
    i2: int,
    i1: int,
)
    requires
        0 <= i4 < 512,
        0 <= i3 < 512,
        0 <= i2 < 512,
        0 <= i1 < 512,
        walk_effect(pre, post, handed_pre, handed_post, i4, i3, i2, i1),
    ensures
        no_huge_walks(pre) ==> no_huge_walks(post),
        forall|j4: int, j3: int, j2: int, j1: int|
            0 <= j4 < 512 && 0 <= j3 < 512 && 0 <= j2 < 512 && 0 <= j1 < 512 && !(j4 == i4 && j3
                == i3 && j2 == i2 && j1 == i1) && walk_complete(post, j4, j3, j2) && #[trigger] walk_leaf(
                post,
                j4,
                j3,
                j2,
                j1,
            ) != 0 ==> walk_complete(pre, j4, j3, j2) && walk_leaf(pre, j4, j3, j2, j1)
                == walk_leaf(post, j4, j3, j2, j1),
{
    lemma_zero_entry_bits();
    let had4 = pre.p4.children@[i4] is Some;
    let pre3 = child_table(pre.p4, i4);
    let post3 = child_table(post.p4, i4);
    let had3 = had4 && pre3.children@[i3] is Some;
    let pre2 = child_table(pre3, i3);
    let post2 = child_table(post3, i3);
    let had2 = had3 && pre2.children@[i2] is Some;
    let base = handed_pre.len() as int;
    if !had4 {
        lemma_table_pointer_not_huge(handed_post[base]);
    }
    if !had3 {
        lemma_table_pointer_not_huge(handed_post[base + (if had4 { 0int } else { 1 })]);
    }
    if !had2 {
        lemma_table_pointer_not_huge(
            handed_post[base + (if had4 { 0int } else { 1 }) + (if had3 { 0int } else { 1 })],
        );
    }
    if no_huge_walks(pre) {
        assert forall|j4: int, j3: int, j2: int|
            0 <= j4 < 512 && 0 <= j3 < 512 && 0 <= j2 < 512 implies !walk_hits_huge(
            post,
            j4,
            j3,
            j2,
        ) by {
            assert(!walk_hits_huge(pre, j4, j3, j2));
            if j4 == i4 {
                let e3 = entry_at(post3, j3);
                if j3 == i3 {
                    if had3 {
                        assert(e3 == entry_at(pre3, i3));
                    } else {
                        assert(!flag_set(e3, HUGE_PAGE));
                    }
                } else {
                    if had4 {
                        assert(e3 == entry_at(pre3, j3));
                    } else {
                        assert(e3 == 0);
                    }
                }
                assert(!(flag_set(e3, PRESENT) && flag_set(e3, HUGE_PAGE)));
                match post3.children@[j3] {
                    None => {},
                    Some(p2x) => {
                        let e2 = entry_at(*p2x, j2);
                        if j3 == i3 {
                            assert(*p2x == post2);
                            if j2 == i2 {
                                if had2 {
                                    assert(e2 == entry_at(pre2, i2));
                                } else {
                                    assert(!flag_set(e2, HUGE_PAGE));
                                }
                            } else {
                                if had3 {
                                    assert(e2 == entry_at(pre2, j2));
                                } else {
                                    assert(post2.children@[j2] is None && entry_at(post2, j2)
                                        == 0);
                                }
                            }
                        } else {
                            assert(had4 && post3.children@[j3] == pre3.children@[j3]);
                        }
                        assert(!(flag_set(e2, PRESENT) && flag_set(e2, HUGE_PAGE)));
                    },
                }
            }
        }
    }
    assert forall|j4: int, j3: int, j2: int, j1: int|
        0 <= j4 < 512 && 0 <= j3 < 512 && 0 <= j2 < 512 && 0 <= j1 < 512 && !(j4 == i4 && j3 == i3
            && j2 == i2 && j1 == i1) && walk_complete(post, j4, j3, j2) && #[trigger] walk_leaf(
            post,
            j4,
            j3,
            j2,
            j1,
        ) != 0 implies walk_complete(pre, j4, j3, j2) && walk_leaf(pre, j4, j3, j2, j1)
        == walk_leaf(post, j4, j3, j2, j1) by {
        if j4 == i4 {
            if j3 == i3 {
                if j2 == i2 {
                    assert(j1 != i1);
                    let post1 = child_table(post2, i2);
                    if had2 {
                        let pre1 = child_table(pre2, i2);
                        assert(post1.entries@[j1] == pre1.entries@[j1]);
                        assert(walk_complete(pre, i4, i3, i2));
                    } else {
                        assert(post1.children@[j1] is None && entry_at(post1, j1) == 0);
                    }
                } else {
                    if had3 {
                        assert(post2.entries@[j2] == pre2.entries@[j2] && post2.children@[j2]
                            == pre2.children@[j2]);
                    } else {
                        assert(entry_at(post2, j2) == 0 && post2.children@[j2] is None);
                    }
                }
            } else {
                if had4 {
                    assert(post3.entries@[j3] == pre3.entries@[j3] && post3.children@[j3]
                        == pre3.children@[j3]);
                } else {
                    assert(entry_at(post3, j3) == 0 && post3.children@[j3] is None);
                }
            }
        }
    }
}

/// The outcome `map_to` promises: each refusal tied exactly to the state that
/// forces it, and on success the one new mapping with every other mapping
/// untouched.
pub open spec fn map_to_result(
    pre: PageTable,
    post: PageTable,
    page: Page,
    frame: Frame,
    flags: EntryFlags,
    r: Result<(), MapError>,
) -> bool {
    let i4 = page.spec_p4_index() as int;
    let i3 = page.spec_p3_index() as int;
    let i2 = page.spec_p2_index() as int;
    let i1 = page.spec_p1_index() as int;
    &&& (r == Err::<(), MapError>(MapError::ReservedEntry) <==> i4 == 511)
    &&& (i4 != 511 ==> ((r == Err::<(), MapError>(MapError::HugePage)) <==> walk_hits_huge(
        pre,
        i4,
        i3,
        i2,
    )))
    &&& (i4 != 511 && !walk_hits_huge(pre, i4, i3, i2) ==> ((r == Err::<(), MapError>(
        MapError::AlreadyMapped,
    )) <==> (walk_complete(pre, i4, i3, i2) && walk_leaf(pre, i4, i3, i2, i1) != 0)))
    &&& (r is Err ==> (r == Err::<(), MapError>(MapError::ReservedEntry) || r == Err::<
        (),
        MapError,
    >(MapError::HugePage) || r == Err::<(), MapError>(MapError::AlreadyMapped) || r == Err::<
        (),
        MapError,
    >(MapError::FrameExhausted)))
    &&& (r is Err ==> mappings_unchanged(pre, post))
    &&& (r is Ok ==> post.idx_map(i4, i3, i2, i1) == Some(
        (frame.number as int, ((frame.number * 4096) as u64) | (flags.bits | PRESENT)),
    ) && mappings_unchanged_except(pre, post, i4, i3, i2, i1) && walk_complete(post, i4, i3, i2))
    &&& (i4 != 511 && !walk_hits_huge(pre, i4, i3, i2) && walk_complete(pre, i4, i3, i2)
        && walk_leaf(pre, i4, i3, i2, i1) == 0 ==> r is Ok)
    &&& entry_at(post.p4, 511) == entry_at(pre.p4, 511)
}

impl PageTable {
    /// Maps `page` to `frame` with `flags` (PRESENT is added), creating the
    /// intermediate tables on the way down. Refuses a page whose walk crosses
    /// the reserved recursive slot, a huge mapping, or an entry already in
    /// use; every other mapping is left untouched, also on a refusal.
    pub fn map_to<A: FrameAllocator>(
        &mut self,
        page: Page,
        frame: Frame,
        flags: EntryFlags,
        allocator: &mut A,
    ) -> (r: Result<(), MapError>)
        requires
            old(self).wf(),
            flags_wf(flags.bits),
            frame.number < 0x100_0000_0000,
            old(allocator).inv(),
        ensures
            final(self).wf(),
            final(allocator).inv(),
            forall|n: int| final(allocator).excluded(n) == old(allocator).excluded(n),
            forall|n: int| final(allocator).available(n) == old(allocator).available(n),
            map_to_result(*old(self), *final(self), page, frame, flags, r),
            r == Err::<(), MapError>(MapError::FrameExhausted) ==> allocator_exhausted(
                *final(allocator),
            ),
            handed_prefix(old(allocator).handed_out(), final(allocator).handed_out()),
            final(allocator).handed_out().len() <= old(allocator).handed_out().len()
                + walk_missing_levels(
                *old(self),
                page.spec_p4_index() as int,
                page.spec_p3_index() as int,
                page.spec_p2_index() as int,
            ),
            r is Ok ==> final(allocator).handed_out().len() == old(allocator).handed_out().len()
                + walk_missing_levels(
                *old(self),
                page.spec_p4_index() as int,
                page.spec_p3_index() as int,
                page.spec_p2_index() as int,
            ),
            final(allocator).cursor() >= old(allocator).cursor(),
            r is Ok ==> walk_effect(
                *old(self),
                *final(self),
                old(allocator).handed_out(),
                final(allocator).handed_out(),
                page.spec_p4_index() as int,
                page.spec_p3_index() as int,
                page.spec_p2_index() as int,
                page.spec_p1_index() as int,
            ),
    {
        let ghost pre = *self;
        let i4 = page.p4_index();
        let i3 = page.p3_index();
        let i2 = page.p2_index();
        let i1 = page.p1_index();
        if i4 == RECURSIVE_INDEX {
            return Err(MapError::ReservedEntry);
        }
        proof {
            lemma_flag_bits();
        }
        // Level 4: reach (or create) the level-3 table.
        match ensure_child(&mut self.p4, i4, allocator) {
            Ok(()) => {},
            Err(e) => {
                proof {
                    assert(!flag_set(entry_at(pre.p4, i4 as int), HUGE_PAGE));
                    assert(e == MapError::FrameExhausted);
                    assert(pre.p4.children@[i4 as int] is None);
                    assert(mappings_unchanged(pre, *self));
                }
                return Err(e);
            },
        }
        proof {
            lemma_grow4(pre.p4, self.p4, i4 as int);
            assert(entry_at(self.p4, 511) == entry_at(pre.p4, 511));
        }
        let ghost s4 = self.p4;
        let ghost c3pre = child_table(s4, i4 as int);
        let ghost created4 = !points_to_table(entry_at(pre.p4, i4 as int));
        proof {
            assert(s4.children@[i4 as int] is Some);
            assert(wf3(c3pre));
            assert(created4 ==> table_empty(c3pre));
            assert(!created4 ==> s4 == pre.p4 && pre.p4.children@[i4 as int] == Some(
                Box::new(c3pre),
            ));
        }
        let p3: &mut Box<Table> = match &mut self.p4.children[i4] {
            Some(b) => b,
            None => unreached(),
        };
        proof {
            assert(**p3 == c3pre);
        }
        // Level 3: reach (or create) the level-2 table.
        match ensure_child(&mut **p3, i3, allocator) {
            Ok(()) => {},
            Err(e) => {
                proof {
                    lemma_zero_entry_bits();
                    lemma_replace_child4(s4, self.p4, i4 as int);
                    assert(e == MapError::HugePage ==> walk_hits_huge(pre, i4 as int, i3 as int, i2 as int));
                    assert(e == MapError::FrameExhausted ==> !walk_hits_huge(pre, i4 as int, i3 as int, i2 as int) && !walk_complete(pre, i4 as int, i3 as int, i2 as int));
                    assert(mappings_unchanged(pre, *self));
                }
                return Err(e);
            },
        }
        proof {
            lemma_grow3(c3pre, **p3, i3 as int);
        }
        let ghost s3 = **p3;
        let ghost c2pre = child_table(s3, i3 as int);
        let ghost created3 = !points_to_table(entry_at(c3pre, i3 as int));
        proof {
            assert(s3.children@[i3 as int] is Some);
            assert(wf2(c2pre));
            assert(created3 ==> table_empty(c2pre));
            assert(!created3 ==> s3 == c3pre && c3pre.children@[i3 as int] == Some(
                Box::new(c2pre),
            ));
        }
        let p2: &mut Box<Table> = match &mut p3.children[i3] {
            Some(b) => b,
            None => unreached(),
        };
        proof {
            assert(**p2 == c2pre);
        }
        // Level 2: reach (or create) the level-1 table.
        match ensure_child(&mut **p2, i2, allocator) {
            Ok(()) => {},
            Err(e) => {
                proof {
                    lemma_zero_entry_bits();
                    lemma_replace_child3(s3, **p3, i3 as int);
                    lemma_replace_child4(s4, self.p4, i4 as int);
                    assert(e == MapError::HugePage ==> walk_hits_huge(pre, i4 as int, i3 as int, i2 as int));
                    assert(e == MapError::FrameExhausted ==> !walk_hits_huge(pre, i4 as int, i3 as int, i2 as int) && !walk_complete(pre, i4 as int, i3 as int, i2 as int));
                    assert(mappings_unchanged(pre, *self));
                }
                return Err(e);
            },
        }
        proof {
            lemma_grow2(c2pre, **p2, i2 as int);
        }
        let ghost s2 = **p2;
        let ghost c1pre = child_table(s2, i2 as int);
        let ghost created2 = !points_to_table(entry_at(c2pre, i2 as int));
        proof {
            assert(s2.children@[i2 as int] is Some);
            assert(wf1(c1pre));
            assert(created2 ==> table_empty(c1pre));
            assert(!created2 ==> s2 == c2pre && c2pre.children@[i2 as int] == Some(
                Box::new(c1pre),
            ));
        }
        let p1: &mut Box<Table> = match &mut p2.children[i2] {
            Some(b) => b,
            None => unreached(),
        };
        proof {
            assert(**p1 == c1pre);
        }
        // Level 1: the target entry must be wholly unused.
        let e1: Entry = p1.entries[i1];
        if !e1.is_unused() {
            proof {
                assert(!created4 && !created3 && !created2);
                assert(walk_complete(pre, i4 as int, i3 as int, i2 as int));
                assert(walk_leaf(pre, i4 as int, i3 as int, i2 as int, i1 as int) == e1.value);
                lemma_replace_child2(s2, **p2, i2 as int);
                lemma_replace_child3(s3, **p3, i3 as int);
                lemma_replace_child4(s4, self.p4, i4 as int);
                assert(mappings_unchanged(pre, *self));
            }
            return Err(MapError::AlreadyMapped);
        }
        let mut new_entry = Entry::new();
        proof {
            let fb = flags.bits;
            assert(0x1u64 & 0x8000_0000_0000_01ffu64 == 0x1u64) by (bit_vector);
            assert(fb & 0x8000_0000_0000_01ffu64 == fb ==> (fb | 0x1u64)
                & 0x8000_0000_0000_01ffu64 == (fb | 0x1u64)) by (bit_vector);
        }
        new_entry.set(frame, flags.union_with(EntryFlags { bits: PRESENT }));
        p1.entries[i1] = new_entry;
        proof {
            let n = frame.number;
            let fb = flags.bits;
            assert((((n * 4096) as u64) | (fb | 0x1u64)) & 1u64 == 1u64) by (bit_vector);
            assert(flag_set(new_entry.value, PRESENT));
        }
        proof {
            lemma_set_leaf(c1pre, **p1, i1 as int, new_entry.value);
            lemma_replace_child2(s2, **p2, i2 as int);
            lemma_replace_child3(s3, **p3, i3 as int);
            lemma_replace_child4(s4, self.p4, i4 as int);
            assert(!walk_hits_huge(pre, i4 as int, i3 as int, i2 as int));
            assert(!(walk_complete(pre, i4 as int, i3 as int, i2 as int) && walk_leaf(pre, i4 as int, i3 as int, i2 as int, i1 as int) != 0));
            assert(self.idx_map(i4 as int, i3 as int, i2 as int, i1 as int) == Some(
                (frame.number as int, ((frame.number * 4096) as u64) | (flags.bits | PRESENT)),
            ));
            assert(mappings_unchanged_except(pre, *self, i4 as int, i3 as int, i2 as int, i1 as int));
            assert(walk_complete(*self, i4 as int, i3 as int, i2 as int));
            assert(entry_at(self.p4, 511) == entry_at(pre.p4, 511));
            // The raw-entry accounting, level by level.
            let had4 = pre.p4.children@[i4 as int] is Some;
            let had3 = had4 && child_table(pre.p4, i4 as int).children@[i3 as int] is Some;
            let had2 = had3 && child_table(child_table(pre.p4, i4 as int), i3 as int).children@[i2 as int] is Some;
            assert(had4 ==> c3pre == child_table(pre.p4, i4 as int));
            assert(had3 ==> c2pre == child_table(child_table(pre.p4, i4 as int), i3 as int));
            assert(had2 ==> c1pre == child_table(
                child_table(child_table(pre.p4, i4 as int), i3 as int),
                i2 as int,
            ));
            assert(child_table(self.p4, i4 as int) == **p3);
            assert(child_table(**p3, i3 as int) == **p2);
            assert(child_table(**p2, i2 as int) == **p1);
            assert(p1.children@[i1 as int] is None);
            lemma_frame_number_bound();
            let base = old(allocator).handed_out().len() as int;
            let made4: int = if had4 { 0 } else { 1 };
            let made3: int = if had3 { 0 } else { 1 };
            let hp = allocator.handed_out();
            assert(forall|j: int|
                0 <= j < 512 && j != i4 ==> self.p4.entries@[j] == pre.p4.entries@[j]
                    && self.p4.children@[j] == pre.p4.children@[j]);
            assert(entry_at(self.p4, i4 as int) == if had4 {
                entry_at(pre.p4, i4 as int)
            } else {
                table_pointer_entry(hp[base])
            });
            assert(if had4 {
                forall|j: int|
                    0 <= j < 512 && j != i3 ==> (**p3).entries@[j] == c3pre.entries@[j]
                        && (**p3).children@[j] == c3pre.children@[j]
            } else {
                forall|j: int|
                    0 <= j < 512 && j != i3 ==> entry_at(**p3, j) == 0 && (#[trigger] (
                    **p3).children@[j]) is None
            });
            assert(entry_at(**p3, i3 as int) == if had3 {
                entry_at(c3pre, i3 as int)
            } else {
                table_pointer_entry(hp[base + made4])
            });
            assert(entry_at(**p2, i2 as int) == if had2 {
                entry_at(c2pre, i2 as int)
            } else {
                table_pointer_entry(hp[base + made4 + made3])
            });
            assert(if had3 {
                forall|j: int|
                    0 <= j < 512 && j != i2 ==> (**p2).entries@[j] == c2pre.entries@[j]
                        && (**p2).children@[j] == c2pre.children@[j]
            } else {
                forall|j: int|
                    0 <= j < 512 && j != i2 ==> entry_at(**p2, j) == 0 && (#[trigger] (
                    **p2).children@[j]) is None
            });
            assert forall|j: int| 0 <= j < 512 && j != i1 implies (**p1).entries@[j]
                == c1pre.entries@[j] && (#[trigger] (**p1).children@[j]) == c1pre.children@[j] by {}
            assert forall|j: int| 0 <= j < 512 && j != i1 && !had2 implies entry_at(**p1, j) == 0
                && (#[trigger] (**p1).children@[j]) is None by {
                assert(entry_at(c1pre, j) == 0);
                assert(c1pre.children@[j] is None);
            }
            assert(walk_effect(
                pre,
                *self,
                old(allocator).handed_out(),
                allocator.handed_out(),
                i4 as int,
                i3 as int,
                i2 as int,
                i1 as int,
            ));
        }
        Ok(())
    }
}

/// What a successful `unmap` for `(i4, i3, i2, i1)` did to the raw entries:
/// exactly the one level-1 entry was cleared; every other entry and child of
/// every level, on the walk or off it, is untouched, and in particular the
/// intermediate tables of the walk are deliberately not reclaimed.
pub open spec fn unmap_effect(
    pre: PageTable,
    post: PageTable,
    i4: int,
    i3: int,
    i2: int,
    i1: int,
) -> bool {
    let pre3 = child_table(pre.p4, i4);
    let post3 = child_table(post.p4, i4);
    let pre2 = child_table(pre3, i3);
    let post2 = child_table(post3, i3);
    let pre1 = child_table(pre2, i2);
    let post1 = child_table(post2, i2);
    &&& forall|j: int|
        0 <= j < 512 && j != i4 ==> post.p4.entries@[j] == pre.p4.entries@[j]
            && post.p4.children@[j] == pre.p4.children@[j]
    &&& entry_at(post.p4, i4) == entry_at(pre.p4, i4)
    &&& post.p4.children@[i4] is Some
    &&& forall|j: int|
        0 <= j < 512 && j != i3 ==> post3.entries@[j] == pre3.entries@[j] && post3.children@[j]
            == pre3.children@[j]
    &&& entry_at(post3, i3) == entry_at(pre3, i3)
    &&& post3.children@[i3] is Some
    &&& forall|j: int|
        0 <= j < 512 && j != i2 ==> post2.entries@[j] == pre2.entries@[j] && post2.children@[j]
            == pre2.children@[j]
    &&& entry_at(post2, i2) == entry_at(pre2, i2)
    &&& post2.children@[i2] is Some
    &&& post1.children@ == pre1.children@
    &&& post1.entries@ == pre1.entries@.update(i1, Entry { value: 0 })
}

/// The outcome `unmap` promises: refusals tied exactly to the state that
/// forces them, and on success the one mapping gone with every other mapping
/// untouched.
pub open spec fn unmap_result(pre: PageTable, post: PageTable, page: Page, r: Result<
    (),
    MapError,
>) -> bool {
    let i4 = page.spec_p4_index() as int;
    let i3 = page.spec_p3_index() as int;
    let i2 = page.spec_p2_index() as int;
    let i1 = page.spec_p1_index() as int;
    &&& (r == Err::<(), MapError>(MapError::NotMapped) <==> pre.page_map(page) is None)
    &&& (pre.page_map(page) is Some ==> ((r == Err::<(), MapError>(MapError::HugePage)) <==> !walk_complete(
        pre,
        i4,
        i3,
        i2,
    )))
    &&& (r is Ok <==> (pre.page_map(page) is Some && walk_complete(pre, i4, i3, i2)))
    &&& (r is Err ==> mappings_unchanged(pre, post))
    &&& (r is Ok ==> post.idx_map(i4, i3, i2, i1) is None && mappings_unchanged_except(
        pre,
        post,
        i4,
        i3,
        i2,
        i1,
    ))
}

impl PageTable {
    /// Maps `page` to a freshly allocated frame with `flags` (PRESENT is
    /// added); fails when the allocator is exhausted, which the caller must
    /// treat as fatal.
    pub fn map<A: FrameAllocator>(
        &mut self,
        page: Page,
        flags: EntryFlags,
        allocator: &mut A,
    ) -> (r: Result<(), MapError>)
        requires
            old(self).wf(),
            flags_wf(flags.bits),
            old(allocator).inv(),
        ensures
            final(self).wf(),
            final(allocator).inv(),
            forall|n: int| final(allocator).excluded(n) == old(allocator).excluded(n),
            forall|n: int| final(allocator).available(n) == old(allocator).available(n),
            r is Err ==> mappings_unchanged(*old(self), *final(self)),
            r is Ok ==> exists|n: int|
                #[trigger] is_first_frame(*old(allocator), n) && map_to_result(
                    *old(self),
                    *final(self),
                    page,
                    Frame { number: n as u64 },
                    flags,
                    Ok(()),
                ),
            (forall|n: int|
                n >= old(allocator).cursor() ==> !(old(allocator).available(n) && !old(
                    allocator,
                ).excluded(n))) ==> r == Err::<(), MapError>(MapError::FrameExhausted),
            r == Err::<(), MapError>(MapError::FrameExhausted) ==> allocator_exhausted(
                *final(allocator),
            ),
            handed_prefix(old(allocator).handed_out(), final(allocator).handed_out()),
            final(allocator).handed_out().len() <= old(allocator).handed_out().len() + 4,
            r is Ok ==> final(allocator).handed_out().len() == old(allocator).handed_out().len()
                + 1 + walk_missing_levels(
                *old(self),
                page.spec_p4_index() as int,
                page.spec_p3_index() as int,
                page.spec_p2_index() as int,
            ),
            final(allocator).cursor() >= old(allocator).cursor(),
            r is Err ==> (r == Err::<(), MapError>(MapError::FrameExhausted) || r == Err::<
                (),
                MapError,
            >(MapError::ReservedEntry) || r == Err::<(), MapError>(MapError::HugePage) || r
                == Err::<(), MapError>(MapError::AlreadyMapped)),
    {
        let frame = match allocator.allocate_frame() {
            Some(f) => f,
            None => { return Err(MapError::FrameExhausted) },
        };
        let r = self.map_to(page, frame, flags, allocator);
        proof {
            if r is Ok {
                assert(is_first_frame(*old(allocator), frame.number as int));
            }
        }
        r
    }

    /// Removes the mapping of `page`, returning its frame to the allocator
    /// and leaving every other mapping untouched. Huge mappings are not
    /// supported here, and the intermediate tables of the walk, possibly
    /// empty now, are deliberately not reclaimed.
    pub fn unmap<A: FrameAllocator>(&mut self, page: Page, allocator: &mut A) -> (r: Result<
        (),
        MapError,
    >)
        requires
            old(self).wf(),
            old(allocator).inv(),
        ensures
            final(self).wf(),
            final(allocator).inv(),
            forall|n: int| final(allocator).excluded(n) == old(allocator).excluded(n),
            forall|n: int| final(allocator).available(n) == old(allocator).available(n),
            unmap_result(*old(self), *final(self), page, r),
            final(allocator).handed_out() == old(allocator).handed_out(),
            final(allocator).cursor() == old(allocator).cursor(),
            r is Ok ==> unmap_effect(
                *old(self),
                *final(self),
                page.spec_p4_index() as int,
                page.spec_p3_index() as int,
                page.spec_p2_index() as int,
                page.spec_p1_index() as int,
            ) && walk_complete(
                *final(self),
                page.spec_p4_index() as int,
                page.spec_p3_index() as int,
                page.spec_p2_index() as int,
            ),
    {
        let ghost pre = *self;
        let i4 = page.p4_index();
        let i3 = page.p3_index();
        let i2 = page.p2_index();
        let i1 = page.p1_index();
        proof {
            lemma_flag_bits();
        }
        // First classify by reading alone, as the hardware walk would; the
        // hierarchy is touched only once the removal is known to go through.
        let frame = match self.translate_page(page) {
            None => {
                return Err(MapError::NotMapped);
            },
            Some(f) => f,
        };
        if !self.walk_is_complete(page) {
            // The page is granted by a huge mapping; descending one is not
            // supported.
            return Err(MapError::HugePage);
        }
        let ghost c3 = child_table(pre.p4, i4 as int);
        let ghost c2 = child_table(c3, i3 as int);
        let ghost c1 = child_table(c2, i2 as int);
        proof {
            assert(wf3(c3) && wf2(c2) && wf1(c1));
        }
        let p3: &mut Box<Table> = match &mut self.p4.children[i4] {
            Some(b) => b,
            None => unreached(),
        };
        let p2: &mut Box<Table> = match &mut p3.children[i3] {
            Some(b) => b,
            None => unreached(),
        };
        let p1: &mut Box<Table> = match &mut p2.children[i2] {
            Some(b) => b,
            None => unreached(),
        };
        p1.entries[i1] = Entry::new();
        // Invalidating the unmapped address in the TLB is the hardware
        // layer's part; returning the frame is this layer's.
        allocator.deallocate_frame(frame);
        proof {
            lemma_zero_entry_bits();
            lemma_set_leaf(c1, **p1, i1 as int, 0);
            lemma_replace_child2(c2, **p2, i2 as int);
            lemma_replace_child3(c3, **p3, i3 as int);
            lemma_replace_child4(pre.p4, self.p4, i4 as int);
            assert(pre.page_map(page) is Some);
            assert(self.idx_map(i4 as int, i3 as int, i2 as int, i1 as int) is None);
            assert(mappings_unchanged_except(pre, *self, i4 as int, i3 as int, i2 as int, i1 as int));
            assert(child_table(self.p4, i4 as int) == **p3);
            assert(child_table(**p3, i3 as int) == **p2);
            assert(child_table(**p2, i2 as int) == **p1);
            assert(unmap_effect(pre, *self, i4 as int, i3 as int, i2 as int, i1 as int));
            assert(walk_complete(*self, i4 as int, i3 as int, i2 as int));
        }
        Ok(())
    }

    /// True when tables stand at every level of the walk for `page`.
    fn walk_is_complete(&self, page: Page) -> (r: bool)
        requires
            self.wf(),
        ensures
            r == walk_complete(
                *self,
                page.spec_p4_index() as int,
                page.spec_p3_index() as int,
                page.spec_p2_index() as int,
            ),
    {
        let i4 = page.p4_index();
        let i3 = page.p3_index();
        let i2 = page.p2_index();
        match &self.p4.children[i4] {
            None => false,
            Some(p3) => match &p3.children[i3] {
                None => false,
                Some(p2) => p2.children[i2].is_some(),
            },
        }
    }
}

impl PageTable {
    /// Maps the whole 1 GiB region of pages sharing `page`'s level-4 and
    /// level-3 indices to the region starting at `frame`, which must be
    /// 262144-frame aligned, by writing one huge level-3 entry.
    pub fn map_to_1gib<A: FrameAllocator>(
        &mut self,
        page: Page,
        frame: Frame,
        flags: EntryFlags,
        allocator: &mut A,
    ) -> (r: Result<(), MapError>)
        requires
            old(self).wf(),
            flags_wf(flags.bits),
            frame.number < 0x100_0000_0000,
            old(allocator).inv(),
        ensures
            final(self).wf(),
            final(allocator).inv(),
            forall|n: int| final(allocator).excluded(n) == old(allocator).excluded(n),
            forall|n: int| final(allocator).available(n) == old(allocator).available(n),
            r == Err::<(), MapError>(MapError::Misaligned) <==> frame.number % 262144 != 0,
            frame.number % 262144 == 0 ==> ((r == Err::<(), MapError>(MapError::ReservedEntry))
                <==> page.spec_p4_index() == 511),
            frame.number % 262144 == 0 && page.spec_p4_index() != 511 ==> ((r == Err::<
                (),
                MapError,
            >(MapError::AlreadyMapped)) <==> (old(self).p4.children@[page.spec_p4_index() as int]
                is Some && entry_at(
                child_table(old(self).p4, page.spec_p4_index() as int),
                page.spec_p3_index() as int,
            ) != 0)),
            r == Err::<(), MapError>(MapError::FrameExhausted) ==> allocator_exhausted(
                *final(allocator),
            ),
            handed_prefix(old(allocator).handed_out(), final(allocator).handed_out()),
            final(allocator).handed_out().len() <= old(allocator).handed_out().len() + 1,
            final(allocator).cursor() >= old(allocator).cursor(),
            r is Err ==> mappings_unchanged(*old(self), *final(self)),
            r is Ok ==> forall|j2: int, j1: int|
                0 <= j2 < 512 && 0 <= j1 < 512 ==> #[trigger] final(self).idx_map(
                    page.spec_p4_index() as int,
                    page.spec_p3_index() as int,
                    j2,
                    j1,
                ) == Some(
                    (
                        frame.number + j2 * 512 + j1,
                        ((frame.number * 4096) as u64) | (flags.bits | (PRESENT | HUGE_PAGE)),
                    ),
                ),
            r is Ok ==> forall|j4: int, j3: int, j2: int, j1: int|
                0 <= j4 < 512 && 0 <= j3 < 512 && 0 <= j2 < 512 && 0 <= j1 < 512 && !(j4
                    == page.spec_p4_index() && j3 == page.spec_p3_index())
                    ==> #[trigger] final(self).idx_map(j4, j3, j2, j1) == old(self).idx_map(
                    j4,
                    j3,
                    j2,
                    j1,
                ),
            r is Err ==> (r == Err::<(), MapError>(MapError::Misaligned) || r == Err::<
                (),
                MapError,
            >(MapError::ReservedEntry) || r == Err::<(), MapError>(MapError::AlreadyMapped) || r
                == Err::<(), MapError>(MapError::FrameExhausted)),
    {
        let ghost pre = *self;
        let i4 = page.p4_index();
        let i3 = page.p3_index();
        if frame.number % 262144 != 0 {
            return Err(MapError::Misaligned);
        }
        if i4 == RECURSIVE_INDEX {
            return Err(MapError::ReservedEntry);
        }
        proof {
            lemma_flag_bits();
        }
        match ensure_child(&mut self.p4, i4, allocator) {
            Ok(()) => {},
            Err(e) => {
                proof {
                    assert(e == MapError::FrameExhausted);
                    assert(mappings_unchanged(pre, *self));
                }
                return Err(e);
            },
        }
        proof {
            lemma_grow4(pre.p4, self.p4, i4 as int);
        }
        let ghost s4 = self.p4;
        let ghost c3pre = child_table(s4, i4 as int);
        proof {
            assert(s4.children@[i4 as int] is Some);
            assert(wf3(c3pre));
        }
        let p3: &mut Box<Table> = match &mut self.p4.children[i4] {
            Some(b) => b,
            None => unreached(),
        };
        proof {
            assert(**p3 == c3pre);
        }
        let e3: Entry = p3.entries[i3];
        if !e3.is_unused() {
            proof {
                lemma_replace_child4(s4, self.p4, i4 as int);
                assert(mappings_unchanged(pre, *self));
            }
            return Err(MapError::AlreadyMapped);
        }
        let mut new_entry = Entry::new();
        proof {
            let fb = flags.bits;
            assert((0x1u64 | 0x80u64) & 0x8000_0000_0000_01ffu64 == (0x1u64 | 0x80u64))
                by (bit_vector);
            assert(fb & 0x8000_0000_0000_01ffu64 == fb ==> (fb | (0x1u64 | 0x80u64))
                & 0x8000_0000_0000_01ffu64 == (fb | (0x1u64 | 0x80u64))) by (bit_vector);
        }
        new_entry.set(frame, flags.union_with(EntryFlags { bits: PRESENT | HUGE_PAGE }));
        p3.entries[i3] = new_entry;
        proof {
            let n = frame.number;
            let fb = flags.bits;
            assert((((n * 4096) as u64) | (fb | (0x1u64 | 0x80u64))) & 1u64 == 1u64 && (((n
                * 4096) as u64) | (fb | (0x1u64 | 0x80u64))) & 0x80u64 == 0x80u64)
                by (bit_vector);
            lemma_zero_entry_bits();
            assert(c3pre.children@[i3 as int] is None);
            lemma_set_huge3(c3pre, **p3, i3 as int, new_entry.value);
            lemma_replace_child4(s4, self.p4, i4 as int);
        }
        Ok(())
    }

    /// Maps the whole 2 MiB region of pages sharing `page`'s upper three
    /// indices to the region starting at `frame`, which must be 512-frame
    /// aligned, by writing one huge level-2 entry.
    pub fn map_to_2mib<A: FrameAllocator>(
        &mut self,
        page: Page,
        frame: Frame,
        flags: EntryFlags,
        allocator: &mut A,
    ) -> (r: Result<(), MapError>)
        requires
            old(self).wf(),
            flags_wf(flags.bits),
            frame.number < 0x100_0000_0000,
            old(allocator).inv(),
        ensures
            final(self).wf(),
            final(allocator).inv(),
            forall|n: int| final(allocator).excluded(n) == old(allocator).excluded(n),
            forall|n: int| final(allocator).available(n) == old(allocator).available(n),
            r == Err::<(), MapError>(MapError::Misaligned) <==> frame.number % 512 != 0,
            frame.number % 512 == 0 ==> ((r == Err::<(), MapError>(MapError::ReservedEntry))
                <==> page.spec_p4_index() == 511),
            frame.number % 512 == 0 && page.spec_p4_index() != 511 ==> ((r == Err::<
                (),
                MapError,
            >(MapError::HugePage)) <==> (old(self).p4.children@[page.spec_p4_index() as int]
                is Some && flag_set(
                entry_at(child_table(old(self).p4, page.spec_p4_index() as int), page.spec_p3_index() as int),
                PRESENT,
            ) && flag_set(
                entry_at(child_table(old(self).p4, page.spec_p4_index() as int), page.spec_p3_index() as int),
                HUGE_PAGE,
            ))),
            frame.number % 512 == 0 && page.spec_p4_index() != 511 && r != Err::<(), MapError>(
                MapError::HugePage,
            ) ==> ((r == Err::<(), MapError>(MapError::AlreadyMapped)) <==> (old(
                self,
            ).p4.children@[page.spec_p4_index() as int] is Some && child_table(
                old(self).p4,
                page.spec_p4_index() as int,
            ).children@[page.spec_p3_index() as int] is Some && entry_at(
                child_table(
                    child_table(old(self).p4, page.spec_p4_index() as int),
                    page.spec_p3_index() as int,
                ),
                page.spec_p2_index() as int,
            ) != 0)),
            r == Err::<(), MapError>(MapError::FrameExhausted) ==> allocator_exhausted(
                *final(allocator),
            ),
            handed_prefix(old(allocator).handed_out(), final(allocator).handed_out()),
            final(allocator).handed_out().len() <= old(allocator).handed_out().len() + 2,
            final(allocator).cursor() >= old(allocator).cursor(),
            r is Err ==> mappings_unchanged(*old(self), *final(self)),
            r is Ok ==> forall|j1: int|
                0 <= j1 < 512 ==> #[trigger] final(self).idx_map(
                    page.spec_p4_index() as int,
                    page.spec_p3_index() as int,
                    page.spec_p2_index() as int,
                    j1,
                ) == Some(
                    (
                        frame.number + j1,
                        ((frame.number * 4096) as u64) | (flags.bits | (PRESENT | HUGE_PAGE)),
                    ),
                ),
            r is Ok ==> forall|j4: int, j3: int, j2: int, j1: int|
                0 <= j4 < 512 && 0 <= j3 < 512 && 0 <= j2 < 512 && 0 <= j1 < 512 && !(j4
                    == page.spec_p4_index() && j3 == page.spec_p3_index() && j2
                    == page.spec_p2_index()) ==> #[trigger] final(self).idx_map(j4, j3, j2, j1)
                    == old(self).idx_map(j4, j3, j2, j1),
            r is Err ==> (r == Err::<(), MapError>(MapError::Misaligned) || r == Err::<
                (),
                MapError,
            >(MapError::ReservedEntry) || r == Err::<(), MapError>(MapError::HugePage) || r
                == Err::<(), MapError>(MapError::AlreadyMapped) || r == Err::<(), MapError>(
                MapError::FrameExhausted,
            )),
    {
        let ghost pre = *self;
        let i4 = page.p4_index();
        let i3 = page.p3_index();
        let i2 = page.p2_index();
        if frame.number % 512 != 0 {
            return Err(MapError::Misaligned);
        }
        if i4 == RECURSIVE_INDEX {
            return Err(MapError::ReservedEntry);
        }
        proof {
            lemma_flag_bits();
        }
        match ensure_child(&mut self.p4, i4, allocator) {
            Ok(()) => {},
            Err(e) => {
                proof {
                    assert(e == MapError::FrameExhausted);
                    assert(mappings_unchanged(pre, *self));
                }
                return Err(e);
            },
        }
        proof {
            lemma_grow4(pre.p4, self.p4, i4 as int);
        }
        let ghost s4 = self.p4;
        let ghost c3pre = child_table(s4, i4 as int);
        proof {
            assert(s4.children@[i4 as int] is Some);
            assert(wf3(c3pre));
        }
        let p3: &mut Box<Table> = match &mut self.p4.children[i4] {
            Some(b) => b,
            None => unreached(),
        };
        proof {
            assert(**p3 == c3pre);
        }
        match ensure_child(&mut **p3, i3, allocator) {
            Ok(()) => {},
            Err(e) => {
                proof {
                    lemma_zero_entry_bits();
                    lemma_replace_child4(s4, self.p4, i4 as int);
                    assert(mappings_unchanged(pre, *self));
                }
                return Err(e);
            },
        }
        proof {
            lemma_grow3(c3pre, **p3, i3 as int);
        }
        let ghost s3 = **p3;
        let ghost c2pre = child_table(s3, i3 as int);
        proof {
            assert(s3.children@[i3 as int] is Some);
            assert(wf2(c2pre));
        }
        let p2: &mut Box<Table> = match &mut p3.children[i3] {
            Some(b) => b,
            None => unreached(),
        };
        proof {
            assert(**p2 == c2pre);
        }
        let e2: Entry = p2.entries[i2];
        if !e2.is_unused() {
            proof {
                lemma_zero_entry_bits();
                assert(pre.p4.children@[i4 as int] is Some);
                assert(c3pre == child_table(pre.p4, i4 as int));
                assert(c3pre.children@[i3 as int] is Some && c2pre == child_table(
                    c3pre,
                    i3 as int,
                ));
                lemma_replace_child3(s3, **p3, i3 as int);
                lemma_replace_child4(s4, self.p4, i4 as int);
                assert(mappings_unchanged(pre, *self));
            }
            return Err(MapError::AlreadyMapped);
        }
        let mut new_entry = Entry::new();
        proof {
            let fb = flags.bits;
            assert((0x1u64 | 0x80u64) & 0x8000_0000_0000_01ffu64 == (0x1u64 | 0x80u64))
                by (bit_vector);
            assert(fb & 0x8000_0000_0000_01ffu64 == fb ==> (fb | (0x1u64 | 0x80u64))
                & 0x8000_0000_0000_01ffu64 == (fb | (0x1u64 | 0x80u64))) by (bit_vector);
        }
        new_entry.set(frame, flags.union_with(EntryFlags { bits: PRESENT | HUGE_PAGE }));
        p2.entries[i2] = new_entry;
        proof {
            let n = frame.number;
            let fb = flags.bits;
            assert((((n * 4096) as u64) | (fb | (0x1u64 | 0x80u64))) & 1u64 == 1u64 && (((n
                * 4096) as u64) | (fb | (0x1u64 | 0x80u64))) & 0x80u64 == 0x80u64)
                by (bit_vector);
            lemma_zero_entry_bits();
            assert(c2pre.children@[i2 as int] is None);
            lemma_set_huge2(c2pre, **p2, i2 as int, new_entry.value);
            lemma_replace_child3(s3, **p3, i3 as int);
            lemma_replace_child4(s4, self.p4, i4 as int);
        }
        Ok(())
    }
}

/// A walk that crosses no huge entry and ends in no present leaf maps
/// nothing.
pub proof fn lemma_walk_clear_unmapped(pt: PageTable, i4: int, i3: int, i2: int, i1: int)
    requires
        pt.wf(),
        0 <= i4 < 512,
        0 <= i3 < 512,
        0 <= i2 < 512,
        0 <= i1 < 512,
        !walk_hits_huge(pt, i4, i3, i2),
        !(walk_complete(pt, i4, i3, i2) && walk_leaf(pt, i4, i3, i2, i1) != 0),
    ensures
        pt.idx_map(i4, i3, i2, i1) is None,
{
    lemma_zero_entry_bits();
    match pt.p4.children@[i4] {
        None => {},
        Some(p3) => {
            assert(wf3(*p3));
            match p3.children@[i3] {
                None => {},
                Some(p2) => {
                    assert(wf2(*p2));
                    match p2.children@[i2] {
                        None => {},
                        Some(p1) => {
                            assert(entry_at(*p1, i1) == 0);
                        },
                    }
                },
            }
        },
    }
}

/// Every frame of `section` is identity-mapped in `t` (virtual address equal
/// to physical address), carrying the section's protection bits.
pub open spec fn section_identity_mapped(t: PageTable, s: ElfSectionInfo) -> bool {
    forall|n: int|
        s.addr / 4096 <= n <= ((s.addr + s.size - 1) as u64) / 4096 ==> #[trigger] t.page_map(
            Page { number: n as u64 },
        ) == Some((n, ((n * 4096) as u64) | (spec_section_flags(s) | PRESENT)))
}

/// Edits a staged hierarchy while it is reachable: on hardware, through the
/// active table's temporarily redirected recursive slot; here, through a
/// borrow of the staged hierarchy itself.
pub struct TempPageTableMapper<'a> {
    /// The hierarchy being built.
    pub table: &'a mut PageTable,
}

impl<'a> TempPageTableMapper<'a> {
    /// Maps the page at `frame`'s own address to `frame`: virtual and
    /// physical address coincide.
    pub fn identity_map<A: FrameAllocator>(
        &mut self,
        frame: Frame,
        flags: EntryFlags,
        allocator: &mut A,
    ) -> (r: Result<(), MapError>)
        requires
            old(self).table.wf(),
            flags_wf(flags.bits),
            frame.number < 0x8_0000_0000,
            old(allocator).inv(),
        ensures
            final(self).table.wf(),
            final(allocator).inv(),
            forall|n: int| final(allocator).excluded(n) == old(allocator).excluded(n),
            forall|n: int| final(allocator).available(n) == old(allocator).available(n),
            map_to_result(
                *old(self).table,
                *final(self).table,
                Page { number: frame.number },
                frame,
                flags,
                r,
            ),
            entry_at(final(self).table.p4, 511) == entry_at(old(self).table.p4, 511),
            r == Err::<(), MapError>(MapError::FrameExhausted) ==> allocator_exhausted(
                *final(allocator),
            ),
            handed_prefix(old(allocator).handed_out(), final(allocator).handed_out()),
            final(allocator).handed_out().len() <= old(allocator).handed_out().len() + 3,
            final(allocator).cursor() >= old(allocator).cursor(),
            r is Ok ==> walk_effect(
                *old(self).table,
                *final(self).table,
                old(allocator).handed_out(),
                final(allocator).handed_out(),
                Page { number: frame.number }.spec_p4_index() as int,
                Page { number: frame.number }.spec_p3_index() as int,
                Page { number: frame.number }.spec_p2_index() as int,
                Page { number: frame.number }.spec_p1_index() as int,
            ),
    {
        let page = Page::containing_address(frame.start_address());
        self.table.map_to(page, frame, flags, allocator)
    }
}

/// A staged four-level hierarchy under construction, and the frame that holds
/// its root, so that it can be activated later. Redirecting the active
/// table's recursive slot at the staged root (and back), with a full TLB
/// flush on each swap, is the hardware layer's part.
pub struct TempPageTable {
    /// The frame holding the root table once activated.
    pub frame: Frame,
    /// The staged hierarchy.
    pub table: PageTable,
}

impl TempPageTable {
    /// Stages a fresh hierarchy: allocates a root frame, reaches it once
    /// through `page` in the active table to zero it and install the
    /// self-referencing entry at the reserved slot, and unmaps `page` again,
    /// leaving the active translations exactly as they were.
    pub fn new_page_table<A: FrameAllocator>(
        page: Page,
        active_table: &mut PageTable,
        allocator: &mut A,
    ) -> (r: Result<TempPageTable, MapError>)
        requires
            old(active_table).wf(),
            old(allocator).inv(),
        ensures
            final(active_table).wf(),
            final(allocator).inv(),
            forall|n: int| final(allocator).excluded(n) == old(allocator).excluded(n),
            forall|n: int| final(allocator).available(n) == old(allocator).available(n),
            mappings_unchanged(*old(active_table), *final(active_table)),
            handed_prefix(old(allocator).handed_out(), final(allocator).handed_out()),
            final(allocator).handed_out().len() <= old(allocator).handed_out().len() + 4,
            final(allocator).cursor() >= old(allocator).cursor(),
            match r {
                Ok(t) => {
                    &&& t.table.wf()
                    &&& forall|j4: int, j3: int, j2: int, j1: int|
                        0 <= j4 < 512 && 0 <= j3 < 512 && 0 <= j2 < 512 && 0 <= j1 < 512
                            ==> #[trigger] t.table.idx_map(j4, j3, j2, j1) is None
                    &&& forall|i: int| 0 <= i < 511 ==> entry_at(t.table.p4, i) == 0
                    &&& forall|i: int| 0 <= i < 512 ==> (#[trigger] t.table.p4.children@[i]) is None
                    &&& spec_frame_number(entry_at(t.table.p4, 511)) == t.frame.number
                    &&& entry_at(t.table.p4, 511) == table_pointer_entry(t.frame.number as int)
                    &&& flag_set(entry_at(t.table.p4, 511), PRESENT)
                    &&& flag_set(entry_at(t.table.p4, 511), WRITABLE)
                    &&& is_first_frame(*old(allocator), t.frame.number as int)
                },
                Err(e) => {
                    &&& (e == MapError::FrameExhausted || e == MapError::ReservedEntry || e
                        == MapError::HugePage || e == MapError::AlreadyMapped)
                    &&& (e == MapError::FrameExhausted ==> allocator_exhausted(*final(allocator)))
                    &&& (e == MapError::ReservedEntry ==> page.spec_p4_index() == 511)
                    &&& (e == MapError::HugePage ==> walk_hits_huge(
                        *old(active_table),
                        page.spec_p4_index() as int,
                        page.spec_p3_index() as int,
                        page.spec_p2_index() as int,
                    ))
                    &&& (e == MapError::AlreadyMapped ==> walk_complete(
                        *old(active_table),
                        page.spec_p4_index() as int,
                        page.spec_p3_index() as int,
                        page.spec_p2_index() as int,
                    ) && walk_leaf(
                        *old(active_table),
                        page.spec_p4_index() as int,
                        page.spec_p3_index() as int,
                        page.spec_p2_index() as int,
                        page.spec_p1_index() as int,
                    ) != 0)
                },
            },
    {
        let frame = match allocator.allocate_frame() {
            Some(f) => f,
            None => { return Err(MapError::FrameExhausted) },
        };
        proof {
            assert(0x2u64 & 0x8000_0000_0000_01ffu64 == 0x2u64 && (0x1u64 | 0x2u64)
                & 0x8000_0000_0000_01ffu64 == (0x1u64 | 0x2u64)) by (bit_vector);
        }
        // Reach the new frame once through the active table, so that (on
        // hardware) it can be zeroed through virtual memory.
        match active_table.map_to(
            page,
            Frame { number: frame.number },
            EntryFlags { bits: WRITABLE },
            allocator,
        ) {
            Ok(()) => {},
            Err(e) => {
                return Err(e);
            },
        }
        // The staged root: zeroed, with the self-referencing entry installed
        // at the reserved slot so it is a valid standalone root.
        let mut table = PageTable::new();
        let ghost fresh = table;
        let mut self_entry = Entry::new();
        self_entry.set(Frame { number: frame.number }, EntryFlags { bits: PRESENT | WRITABLE });
        table.p4.entries[511] = self_entry;
        proof {
            let n = frame.number;
            assert((((n * 4096) as u64) | (0x1u64 | 0x2u64)) & 1u64 == 1u64 && (((n
                * 4096) as u64) | (0x1u64 | 0x2u64)) & 2u64 == 2u64) by (bit_vector);
            assert forall|j: int| 0 <= j < 511 implies #[trigger] entry_at(table.p4, j)
                == entry_at(fresh.p4, j) by {}
            assert(table.p4.children@ == fresh.p4.children@);
            assert(0u64 & 1u64 != 1u64 && 0u64 & 0x80u64 != 0x80u64) by (bit_vector);
            assert forall|j: int| 0 <= j < 511 implies !points_to_table(
                #[trigger] entry_at(table.p4, j),
            ) by {}
            assert(table.wf());
            assert forall|j4: int, j3: int, j2: int, j1: int|
                0 <= j4 < 512 && 0 <= j3 < 512 && 0 <= j2 < 512 && 0 <= j1 < 512
                    implies #[trigger] table.idx_map(j4, j3, j2, j1) is None by {
                assert(table.p4.children@[j4] == fresh.p4.children@[j4]);
                lemma_l4_same_slot(fresh.p4, table.p4, j4, j3, j2, j1);
            }
        }
        proof {
            lemma_page_index_bounds(page.number);
            lemma_walk_clear_unmapped(
                *old(active_table),
                page.spec_p4_index() as int,
                page.spec_p3_index() as int,
                page.spec_p2_index() as int,
                page.spec_p1_index() as int,
            );
        }
        // Drop the staging mapping again; the frame still holds the staged
        // root, reachable through its own self-reference once activated.
        match active_table.unmap(page, allocator) {
            Ok(()) => {},
            Err(_) => {
                proof {
                    assert(false);
                }
                return Err(MapError::NotMapped);
            },
        }
        Ok(TempPageTable { frame: frame, table: table })
    }
}

/// Without huge entries on the walk, a spot is mapped exactly when tables
/// stand at every level and the leaf entry is present (hence nonzero).
pub proof fn lemma_mapped_iff_leaf(pt: PageTable, i4: int, i3: int, i2: int, i1: int)
    requires
        pt.wf(),
        0 <= i4 < 512,
        0 <= i3 < 512,
        0 <= i2 < 512,
        0 <= i1 < 512,
        !walk_hits_huge(pt, i4, i3, i2),
    ensures
        pt.idx_map(i4, i3, i2, i1) is Some <==> (walk_complete(pt, i4, i3, i2) && flag_set(
            walk_leaf(pt, i4, i3, i2, i1),
            PRESENT,
        )),
        pt.idx_map(i4, i3, i2, i1) is Some ==> walk_leaf(pt, i4, i3, i2, i1) != 0,
{
    lemma_zero_entry_bits();
    match pt.p4.children@[i4] {
        None => {},
        Some(p3) => {
            assert(wf3(*p3));
            match p3.children@[i3] {
                None => {},
                Some(p2) => {
                    assert(wf2(*p2));
                },
            }
        },
    }
}

/// Two page numbers below 2^36 sharing all four indices are the same number.
pub proof fn lemma_page_quads_injective(n1: u64, n2: u64)
    requires
        n1 < 0x10_0000_0000,
        n2 < 0x10_0000_0000,
        ((n1 >> 27) & 0o777) == ((n2 >> 27) & 0o777),
        ((n1 >> 18) & 0o777) == ((n2 >> 18) & 0o777),
        ((n1 >> 9) & 0o777) == ((n2 >> 9) & 0o777),
        (n1 & 0o777) == (n2 & 0o777),
    ensures
        n1 == n2,
{
    assert((n1 < 0x10_0000_0000u64 && n2 < 0x10_0000_0000u64 && ((n1 >> 27) & 0o777) == ((n2
        >> 27) & 0o777) && ((n1 >> 18) & 0o777) == ((n2 >> 18) & 0o777) && ((n1 >> 9) & 0o777) == ((
    n2 >> 9) & 0o777) && (n1 & 0o777) == (n2 & 0o777)) ==> n1 == n2) by (bit_vector);
}

/// Frame `n` lies in the loaded content of section `s`.
pub open spec fn section_covers(s: ElfSectionInfo, n: int) -> bool {
    s.allocated && s.size > 0 && s.addr / 4096 <= n <= ((s.addr + s.size - 1) as u64) / 4096
}

/// Frame `n` lies in the first `k` sections' loaded content.
pub open spec fn covered_by_sections(sections: Seq<ElfSectionInfo>, k: int, n: int) -> bool {
    exists|i: int| 0 <= i < k && #[trigger] section_covers(sections[i], n)
}

/// The sections with index below `k` are handled: every allocated one is
/// page-aligned, and every allocated one with content stands identity-mapped
/// in `t` with its own protection bits.
pub open spec fn sections_mapped(t: PageTable, sections: Seq<ElfSectionInfo>, k: int) -> bool {
    &&& forall|i: int| 0 <= i < k ==> ((#[trigger] sections[i]).allocated ==> sections[i].addr % 4096 == 0)
    &&& forall|i: int|
        0 <= i < k && (#[trigger] sections[i]).allocated && sections[i].size > 0
            ==> section_identity_mapped(t, sections[i])
}

/// A page in the lower canonical half never walks through the reserved slot.
proof fn lemma_low_half_not_reserved(n: u64)
    requires
        n < 0x8_0000_0000,
    ensures
        ((n >> 27) & 0o777) != 511,
{
    assert(n < 0x8_0000_0000u64 ==> ((n >> 27) & 0o777) < 256) by (bit_vector);
}

/// Tables stand all the way down for page number `n` and the leaf entry
/// holds something.
pub open spec fn leaf_mapped(pt: PageTable, n: int) -> bool {
    let p = Page { number: n as u64 };
    &&& walk_complete(
        pt,
        p.spec_p4_index() as int,
        p.spec_p3_index() as int,
        p.spec_p2_index() as int,
    )
    &&& walk_leaf(
        pt,
        p.spec_p4_index() as int,
        p.spec_p3_index() as int,
        p.spec_p2_index() as int,
        p.spec_p1_index() as int,
    ) != 0
}

/// Builds the full replacement hierarchy for the loaded kernel: stages a
/// fresh root, then identity-maps every loaded section with protection bits
/// derived from its ELF attributes. The active table is left translating
/// exactly as before; the caller activates the staged hierarchy afterwards
/// and flushes the TLB.
pub fn remap_kernel<A: FrameAllocator>(
    active_table: &mut PageTable,
    sections: &Vec<ElfSectionInfo>,
    allocator: &mut A,
) -> (r: Result<TempPageTable, MapError>)
    requires
        old(active_table).wf(),
        old(allocator).inv(),
        forall|i: int|
            0 <= i < sections@.len() ==> (#[trigger] sections@[i]).addr + sections@[i].size
                <= 0x8000_0000_0000,
    ensures
        final(active_table).wf(),
        final(allocator).inv(),
        forall|n: int| final(allocator).excluded(n) == old(allocator).excluded(n),
        forall|n: int| final(allocator).available(n) == old(allocator).available(n),
        mappings_unchanged(*old(active_table), *final(active_table)),
        handed_prefix(old(allocator).handed_out(), final(allocator).handed_out()),
        final(allocator).cursor() >= old(allocator).cursor(),
        match r {
            Ok(t) => {
                &&& t.table.wf()
                &&& sections_mapped(t.table, sections@, sections@.len() as int)
                &&& forall|n: int|
                    0 <= n < 0x10_0000_0000 ==> ((#[trigger] t.table.page_map(
                        Page { number: n as u64 },
                    )) is Some <==> covered_by_sections(sections@, sections@.len() as int, n))
                &&& spec_frame_number(entry_at(t.table.p4, 511)) == t.frame.number
                &&& flag_set(entry_at(t.table.p4, 511), PRESENT)
            },
            Err(e) => {
                let sp = Page { number: 0xdeadbeefu64 / 4096 };
                &&& (e == MapError::Misaligned || e == MapError::FrameExhausted || e
                    == MapError::AlreadyMapped || e == MapError::HugePage)
                &&& (e == MapError::FrameExhausted ==> allocator_exhausted(*final(allocator)))
                &&& (e == MapError::Misaligned ==> exists|i: int|
                    0 <= i < sections@.len() && (#[trigger] sections@[i]).allocated
                        && sections@[i].addr % 4096 != 0)
                &&& (e == MapError::HugePage ==> walk_hits_huge(
                    *old(active_table),
                    sp.spec_p4_index() as int,
                    sp.spec_p3_index() as int,
                    sp.spec_p2_index() as int,
                ))
                &&& (e == MapError::AlreadyMapped ==> (walk_complete(
                    *old(active_table),
                    sp.spec_p4_index() as int,
                    sp.spec_p3_index() as int,
                    sp.spec_p2_index() as int,
                ) && walk_leaf(
                    *old(active_table),
                    sp.spec_p4_index() as int,
                    sp.spec_p3_index() as int,
                    sp.spec_p2_index() as int,
                    sp.spec_p1_index() as int,
                ) != 0) || (exists|i: int, j: int, n: int|
                    0 <= i < j < sections@.len() && #[trigger] section_covers(sections@[i], n)
                        && #[trigger] section_covers(sections@[j], n)))
            },
        },
{
    let mut temp = match TempPageTable::new_page_table(
        Page::containing_address(0xdeadbeef),
        active_table,
        allocator,
    ) {
        Ok(t) => t,
        Err(e) => {
            proof {
                assert(0xdeadbeefu64 / 4096 == 0xdeadbu64);
                assert(((0xdeadbu64 >> 27) & 0o777) != 511) by (bit_vector);
                let sp = Page { number: 0xdeadbeefu64 / 4096 };
                assert(sp.number == 0xdeadbu64);
                lemma_page_index_bounds(sp.number);
                assert(((sp.number >> 27) & 0o777) != 511);
                assert(sp.spec_p4_index() != 511);
                assert(e != MapError::ReservedEntry);
                assert(e == MapError::Misaligned || e == MapError::FrameExhausted || e
                    == MapError::AlreadyMapped || e == MapError::HugePage);
                assert(e == MapError::FrameExhausted ==> allocator_exhausted(*allocator));
                assert(e == MapError::HugePage ==> walk_hits_huge(
                    *old(active_table),
                    sp.spec_p4_index() as int,
                    sp.spec_p3_index() as int,
                    sp.spec_p2_index() as int,
                ));
            }
            return Err(e);
        },
    };
    let ghost active_snap = *active_table;
    let ghost tframe = temp.frame;
    proof {
        // The fresh staged hierarchy has no walks at all.
        assert forall|n: int| 0 <= n < 0x10_0000_0000 implies !(#[trigger] leaf_mapped(
            temp.table,
            n,
        )) by {
            lemma_page_index_bounds(n as u64);
        }
        assert forall|i4: int, i3: int, i2: int|
            0 <= i4 < 512 && 0 <= i3 < 512 && 0 <= i2 < 512 implies !walk_hits_huge(
            temp.table,
            i4,
            i3,
            i2,
        ) by {}
    }
    let mut si: usize = 0;
    while si < sections.len()
        invariant
            si <= sections@.len(),
            temp.table.wf(),
            temp.frame == tframe,
            spec_frame_number(entry_at(temp.table.p4, 511)) == tframe.number,
            flag_set(entry_at(temp.table.p4, 511), PRESENT),
            *active_table == active_snap,
            active_snap.wf(),
            mappings_unchanged(*old(active_table), active_snap),
            allocator.inv(),
            forall|n: int| allocator.excluded(n) == old(allocator).excluded(n),
            forall|n: int| allocator.available(n) == old(allocator).available(n),
            forall|i: int|
                0 <= i < sections@.len() ==> (#[trigger] sections@[i]).addr + sections@[i].size
                    <= 0x8000_0000_0000,
            sections_mapped(temp.table, sections@, si as int),
            no_huge_walks(temp.table),
            forall|n: int|
                0 <= n < 0x10_0000_0000 ==> (#[trigger] leaf_mapped(temp.table, n)
                    <==> covered_by_sections(sections@, si as int, n)),
            handed_prefix(old(allocator).handed_out(), allocator.handed_out()),
            allocator.cursor() >= old(allocator).cursor(),
        decreases sections@.len() - si,
    {
        let section = sections[si];
        if section.allocated {
            if section.addr % PAGE_SIZE != 0 {
                // A misaligned loadable section means the linker script is
                // broken; nothing of it can be mapped.
                return Err(MapError::Misaligned);
            }
            if section.size > 0 {
                let flags = EntryFlags::from_elf_section_flags(&section);
                let start_frame = Frame::containing_address(section.addr);
                let end_frame = Frame::containing_address(section.addr + section.size - 1);
                proof {
                    let x = (section.addr + section.size - 1) as u64;
                    assert(x < 0x8000_0000_0000u64 ==> x / 4096u64 < 0x8_0000_0000u64)
                        by (bit_vector);
                }
                let mut iter = Frame::range_inclusive(start_frame, end_frame);
                loop
                    invariant
                        si < sections@.len(),
                        section == sections@[si as int],
                        section.allocated,
                        section.size > 0,
                        section.addr % 4096 == 0,
                        iter.end == end_frame,
                        start_frame.number <= iter.start.number <= end_frame.number + 1,
                        end_frame.number < 0x8_0000_0000,
                        temp.table.wf(),
                        temp.frame == tframe,
                        spec_frame_number(entry_at(temp.table.p4, 511)) == tframe.number,
                        flag_set(entry_at(temp.table.p4, 511), PRESENT),
                        *active_table == active_snap,
                        active_snap.wf(),
                        mappings_unchanged(*old(active_table), active_snap),
                        allocator.inv(),
                        forall|n: int| allocator.excluded(n) == old(allocator).excluded(n),
                        forall|n: int| allocator.available(n) == old(allocator).available(n),
                        flags.bits == spec_section_flags(section),
                        flags_wf(flags.bits),
                        start_frame.number == section.addr / 4096,
                        end_frame.number == ((section.addr + section.size - 1) as u64) / 4096,
                        sections_mapped(temp.table, sections@, si as int),
                        forall|n: int|
                            start_frame.number <= n < iter.start.number
                                ==> #[trigger] temp.table.page_map(Page { number: n as u64 })
                                == Some(
                                (n, ((n * 4096) as u64) | (spec_section_flags(section) | PRESENT)),
                            ),
                        no_huge_walks(temp.table),
                        forall|n: int|
                            0 <= n < 0x10_0000_0000 ==> (#[trigger] leaf_mapped(temp.table, n)
                                <==> (covered_by_sections(sections@, si as int, n) || (
                            start_frame.number <= n < iter.start.number))),
                        handed_prefix(old(allocator).handed_out(), allocator.handed_out()),
                        allocator.cursor() >= old(allocator).cursor(),
                    ensures
                        temp.table.wf(),
                        temp.frame == tframe,
                        spec_frame_number(entry_at(temp.table.p4, 511)) == tframe.number,
                        flag_set(entry_at(temp.table.p4, 511), PRESENT),
                        *active_table == active_snap,
                        allocator.inv(),
                        forall|n: int| allocator.excluded(n) == old(allocator).excluded(n),
                        forall|n: int| allocator.available(n) == old(allocator).available(n),
                        sections_mapped(temp.table, sections@, si as int),
                        section_identity_mapped(temp.table, section),
                        no_huge_walks(temp.table),
                        forall|n: int|
                            0 <= n < 0x10_0000_0000 ==> (#[trigger] leaf_mapped(temp.table, n)
                                <==> (covered_by_sections(sections@, si as int, n) || (
                            start_frame.number <= n <= end_frame.number))),
                        handed_prefix(old(allocator).handed_out(), allocator.handed_out()),
                        allocator.cursor() >= old(allocator).cursor(),
                    decreases end_frame.number + 1 - iter.start.number,
                {
                    let frame = match iter.next() {
                        Some(f) => f,
                        None => {
                            proof {
                                assert(iter.start.number == end_frame.number + 1);
                                assert forall|n: int|
                                    section.addr / 4096 <= n <= ((section.addr + section.size
                                        - 1) as u64) / 4096 implies #[trigger] temp.table.page_map(
                                    Page { number: n as u64 },
                                ) == Some(
                                    (
                                        n,
                                        ((n * 4096) as u64) | (spec_section_flags(section)
                                            | PRESENT),
                                    ),
                                ) by {}
                                assert(section_identity_mapped(temp.table, section));
                            }
                            break ;
                        },
                    };
                    let ghost pre_table = temp.table;
                    let ghost handed_before = allocator.handed_out();
                    // Identity-map this frame into the staged hierarchy (what
                    // `TempPageTableMapper::identity_map` does; on hardware it
                    // would go through the redirected recursive slot).
                    let page = Page::containing_address(frame.start_address());
                    let map_result = temp.table.map_to(page, frame, flags, allocator);
                    match map_result {
                        Ok(()) => {},
                        Err(e) => {
                            proof {
                                let m = frame.number as int;
                                let mp = Page { number: frame.number };
                                lemma_page_index_bounds(frame.number);
                                lemma_low_half_not_reserved(frame.number);
                                assert(e != MapError::ReservedEntry);
                                assert(!walk_hits_huge(
                                    pre_table,
                                    mp.spec_p4_index() as int,
                                    mp.spec_p3_index() as int,
                                    mp.spec_p2_index() as int,
                                ));
                                assert(e != MapError::HugePage);
                                if e == MapError::AlreadyMapped {
                                    assert(leaf_mapped(pre_table, m));
                                    assert(covered_by_sections(sections@, si as int, m));
                                    let i = choose|i: int|
                                        0 <= i < si && #[trigger] section_covers(sections@[i], m);
                                    assert(0 <= i && i < si as int && (si as int)
                                        < sections@.len());
                                    assert(sections@[si as int] == section);
                                    assert(section.allocated && section.size > 0);
                                    assert(start_frame.number <= m <= end_frame.number);
                                    assert(section.addr / 4096 <= m <= ((section.addr
                                        + section.size - 1) as u64) / 4096);
                                    assert(section_covers(sections@[si as int], m));
                                }
                            }
                            return Err(e);
                        },
                    }
                    proof {
                        let m = frame.number as int;
                        let mp = Page { number: frame.number };
                        assert(map_to_result(pre_table, temp.table, mp, frame, flags, Ok(())));
                        lemma_page_index_bounds(frame.number);
                        lemma_walk_effect_localizes(
                            pre_table,
                            temp.table,
                            handed_before,
                            allocator.handed_out(),
                            mp.spec_p4_index() as int,
                            mp.spec_p3_index() as int,
                            mp.spec_p2_index() as int,
                            mp.spec_p1_index() as int,
                        );
                        lemma_walk_clear_unmapped(
                            pre_table,
                            mp.spec_p4_index() as int,
                            mp.spec_p3_index() as int,
                            mp.spec_p2_index() as int,
                            mp.spec_p1_index() as int,
                        );
                        assert forall|n: int|
                            start_frame.number <= n < iter.start.number && n != m
                                implies #[trigger] temp.table.page_map(Page { number: n as u64 })
                            == pre_table.page_map(Page { number: n as u64 }) by {
                            lemma_preserved_page(pre_table, temp.table, mp, Page { number: n as u64 });
                        }
                        assert forall|i: int|
                            0 <= i < si && (#[trigger] sections@[i]).allocated && sections@[i].size
                                > 0 implies section_identity_mapped(temp.table, sections@[i]) by {
                            let sec = sections@[i];
                            assert forall|n: int|
                                sec.addr / 4096 <= n <= ((sec.addr + sec.size - 1) as u64) / 4096
                                    implies #[trigger] temp.table.page_map(Page { number: n as u64 })
                                == Some(
                                (n, ((n * 4096) as u64) | (spec_section_flags(sec) | PRESENT)),
                            ) by {
                                lemma_preserved_page(
                                    pre_table,
                                    temp.table,
                                    mp,
                                    Page { number: n as u64 },
                                );
                            }
                        }
                        // The one new walk is the mapped frame's own; every
                        // other filled walk already stood.
                        lemma_mapped_iff_leaf(
                            temp.table,
                            mp.spec_p4_index() as int,
                            mp.spec_p3_index() as int,
                            mp.spec_p2_index() as int,
                            mp.spec_p1_index() as int,
                        );
                        assert(leaf_mapped(temp.table, m));
                        assert forall|n: int|
                            0 <= n < 0x10_0000_0000 implies (#[trigger] leaf_mapped(temp.table, n)
                            <==> (covered_by_sections(sections@, si as int, n) || (
                        start_frame.number <= n < iter.start.number))) by {
                            lemma_page_index_bounds(n as u64);
                            let q = Page { number: n as u64 };
                            if n != m {
                                if q.spec_p4_index() == mp.spec_p4_index() && q.spec_p3_index()
                                    == mp.spec_p3_index() && q.spec_p2_index() == mp.spec_p2_index()
                                    && q.spec_p1_index() == mp.spec_p1_index() {
                                    lemma_page_quads_injective(n as u64, frame.number);
                                }
                                if leaf_mapped(temp.table, n) {
                                    assert(leaf_mapped(pre_table, n));
                                }
                                if covered_by_sections(sections@, si as int, n) || (
                                start_frame.number <= n < iter.start.number && n != m) {
                                    assert(leaf_mapped(pre_table, n));
                                    assert(pre_table.page_map(q) is Some);
                                    lemma_preserved_page(pre_table, temp.table, mp, q);
                                    lemma_mapped_iff_leaf(
                                        temp.table,
                                        q.spec_p4_index() as int,
                                        q.spec_p3_index() as int,
                                        q.spec_p2_index() as int,
                                        q.spec_p1_index() as int,
                                    );
                                    assert(leaf_mapped(temp.table, n));
                                }
                            }
                        }
                    }
                }
                proof {
                    assert forall|n: int|
                        0 <= n < 0x10_0000_0000 implies (#[trigger] leaf_mapped(temp.table, n)
                        <==> covered_by_sections(sections@, si as int + 1, n)) by {
                        if covered_by_sections(sections@, si as int + 1, n) {
                            let i = choose|i: int|
                                0 <= i < si + 1 && #[trigger] section_covers(sections@[i], n);
                            if i < si {
                                assert(covered_by_sections(sections@, si as int, n));
                            }
                        }
                        if covered_by_sections(sections@, si as int, n) {
                            assert(covered_by_sections(sections@, si as int + 1, n));
                        }
                        if start_frame.number <= n <= end_frame.number {
                            assert(section_covers(sections@[si as int], n));
                            assert(covered_by_sections(sections@, si as int + 1, n));
                        }
                    }
                }
            } else {
                proof {
                    assert forall|n: int|
                        0 <= n < 0x10_0000_0000 implies (covered_by_sections(
                        sections@,
                        si as int + 1,
                        n,
                    ) == covered_by_sections(sections@, si as int, n)) by {
                        if covered_by_sections(sections@, si as int + 1, n) {
                            let i = choose|i: int|
                                0 <= i < si + 1 && #[trigger] section_covers(sections@[i], n);
                            assert(i < si);
                            assert(covered_by_sections(sections@, si as int, n));
                        }
                        if covered_by_sections(sections@, si as int, n) {
                            assert(covered_by_sections(sections@, si as int + 1, n));
                        }
                    }
                }
            }
        } else {
            proof {
                assert forall|n: int|
                    0 <= n < 0x10_0000_0000 implies (covered_by_sections(
                    sections@,
                    si as int + 1,
                    n,
                ) == covered_by_sections(sections@, si as int, n)) by {
                    if covered_by_sections(sections@, si as int + 1, n) {
                        let i = choose|i: int|
                            0 <= i < si + 1 && #[trigger] section_covers(sections@[i], n);
                        assert(i < si);
                        assert(covered_by_sections(sections@, si as int, n));
                    }
                    if covered_by_sections(sections@, si as int, n) {
                        assert(covered_by_sections(sections@, si as int + 1, n));
                    }
                }
            }
        }
        si = si + 1;
    }
    proof {
        assert forall|n: int|
            0 <= n < 0x10_0000_0000 implies ((#[trigger] temp.table.page_map(
            Page { number: n as u64 },
        )) is Some <==> covered_by_sections(sections@, sections@.len() as int, n)) by {
            lemma_page_index_bounds(n as u64);
            let q = Page { number: n as u64 };
            lemma_mapped_iff_leaf(
                temp.table,
                q.spec_p4_index() as int,
                q.spec_p3_index() as int,
                q.spec_p2_index() as int,
                q.spec_p1_index() as int,
            );
            if covered_by_sections(sections@, sections@.len() as int, n) {
                assert(leaf_mapped(temp.table, n));
                assert(temp.table.page_map(q) is Some);
            }
            if temp.table.page_map(q) is Some {
                assert(leaf_mapped(temp.table, n));
            }
        }
    }
    Ok(temp)
}

/// After a successful `map_to` of `mapped`, any page that was mapped before
/// still translates as it did: had it shared all four indices with `mapped`,
/// it could not have been mapped, since `map_to` only fills a clear walk.
proof fn lemma_preserved_page(pre: PageTable, post: PageTable, mapped: Page, q: Page)
    requires
        pre.page_map(q) is Some,
        pre.page_map(mapped) is None,
        mappings_unchanged_except(
            pre,
            post,
            mapped.spec_p4_index() as int,
            mapped.spec_p3_index() as int,
            mapped.spec_p2_index() as int,
            mapped.spec_p1_index() as int,
        ),
    ensures
        post.page_map(q) == pre.page_map(q),
{
    lemma_page_index_bounds(q.number);
}

/// A page-aligned address decomposes into its page with no offset.
proof fn lemma_page_aligned_address(n: u64)
    requires
        n < 0x10_0000_0000_0000,
    ensures
        ((n * PAGE_SIZE) as u64) / PAGE_SIZE == n,
        ((n * PAGE_SIZE) as u64) % PAGE_SIZE == 0,
{
    lemma_div_multiples_vanish(n as int, 4096);
    lemma_fundamental_div_mod(n as int * 4096, 4096);
    assert(n as int * 4096 == 4096 * (n as int));
}

/// After `map_to(page, frame, flags)` succeeds, translating the page's start
/// address yields exactly the frame's start address.
pub proof fn lemma_map_to_translates(
    pre: PageTable,
    post: PageTable,
    page: Page,
    frame: Frame,
    flags: EntryFlags,
)
    requires
        map_to_result(pre, post, page, frame, flags, Ok(())),
        page.number < 0x10_0000_0000_0000,
        frame.number < 0x100_0000_0000,
    ensures
        post.spec_translate((page.number * PAGE_SIZE) as u64) == Some(
            (frame.number * PAGE_SIZE) as u64,
        ),
{
    lemma_page_aligned_address(page.number);
}

/// After `unmap(page)` succeeds, translating the page's start address yields
/// nothing.
pub proof fn lemma_unmap_translates_none(pre: PageTable, post: PageTable, page: Page)
    requires
        unmap_result(pre, post, page, Ok(())),
        page.number < 0x10_0000_0000_0000,
    ensures
        post.spec_translate((page.number * PAGE_SIZE) as u64) is None,
{
    lemma_page_aligned_address(page.number);
}

/// Round trip: a page on which `map_to` succeeds was unmapped before, and
/// unmapping it again leaves every address translating exactly as it did at
/// the start.
pub proof fn lemma_map_unmap_roundtrip(
    pre: PageTable,
    mid: PageTable,
    post: PageTable,
    page: Page,
    frame: Frame,
    flags: EntryFlags,
)
    requires
        pre.wf(),
        map_to_result(pre, mid, page, frame, flags, Ok(())),
        unmap_result(mid, post, page, Ok(())),
    ensures
        pre.page_map(page) is None,
        post.page_map(page) is None,
        forall|a: u64| post.spec_translate(a) == pre.spec_translate(a),
{
    lemma_page_index_bounds(page.number);
    lemma_walk_clear_unmapped(
        pre,
        page.spec_p4_index() as int,
        page.spec_p3_index() as int,
        page.spec_p2_index() as int,
        page.spec_p1_index() as int,
    );
    assert forall|a: u64| post.spec_translate(a) == pre.spec_translate(a) by {
        let q = Page { number: a / PAGE_SIZE };
        lemma_page_index_bounds(a / PAGE_SIZE);
        assert(post.page_map(q) == pre.page_map(q));
    }
}

/// Decoding a 1 GiB mapping: with a present huge level-3 entry for frame `s`
/// standing at indices `(i4, i3)` of the lower half, the address `k` pages
/// past the region's virtual base translates to frame `s + k`, for every `k`
/// in the region.
pub proof fn lemma_huge_1gib_decode(pt: PageTable, i4: u64, i3: u64, s: u64, k: u64)
    requires
        pt.wf(),
        i4 < 256,
        i3 < 512,
        pt.p4.children@[i4 as int] is Some,
        flag_set(entry_at(child_table(pt.p4, i4 as int), i3 as int), PRESENT),
        flag_set(entry_at(child_table(pt.p4, i4 as int), i3 as int), HUGE_PAGE),
        spec_frame_number(entry_at(child_table(pt.p4, i4 as int), i3 as int)) == s,
        k < 262144,
    ensures
        pt.spec_translate((((i4 * 0x8000000 + i3 * 0x40000 + k) * 4096) as u64)) == Some(
            (((s + k) * 4096) as u64),
        ),
{
    let n: u64 = (i4 * 0x8000000 + i3 * 0x40000 + k) as u64;
    assert((n == (i4 * 0x8000000 + i3 * 0x40000 + k) as u64 && i4 < 256 && i3 < 512 && k < 262144)
        ==> (((n >> 27) & 0o777) == i4 && ((n >> 18) & 0o777) == i3 && ((n >> 9) & 0o777) == (k
        >> 9) && (n & 0o777) == (k & 0o777) && ((k >> 9) * 512 + (k & 0o777)) as u64 == k && (k
        >> 9) < 512 && (k & 0o777) < 512 && n < 0x10_0000_0000)) by (bit_vector);
    lemma_page_aligned_address(n);
    let p = Page { number: n };
    let p3 = child_table(pt.p4, i4 as int);
    assert(wf3(p3));
    assert(p3.children@[i3 as int] is None);
    assert(pt.page_map(p) == Some(
        (s + (k >> 9) * 512 + (k & 0o777), entry_at(p3, i3 as int)),
    ));
    assert(s + (k >> 9) as int * 512 + (k & 0o777) == s + k);
}

/// An entry whose flag bits pass `flags_wf` stores a frame number below 2^40,
/// and `contains` on its truncated flags reads single bits faithfully.
proof fn lemma_frame_number_bound()
    ensures
        forall|v: u64| #[trigger] spec_frame_number(v) < 0x100_0000_0000,
        forall|v: u64| ((v & ALL_FLAGS) & HUGE_PAGE == HUGE_PAGE) == flag_set(v, HUGE_PAGE),
{
    assert forall|v: u64| #[trigger] spec_frame_number(v) < 0x100_0000_0000 by {
        assert((v & 0x000f_ffff_ffff_f000u64) / 4096u64 < 0x100_0000_0000u64) by (bit_vector);
    }
    assert forall|v: u64| ((v & ALL_FLAGS) & HUGE_PAGE == HUGE_PAGE) == flag_set(v, HUGE_PAGE) by {
        assert(((v & 0x8000_0000_0000_01ffu64) & 0x80u64 == 0x80u64) == (v & 0x80u64 == 0x80u64))
            by (bit_vector);
    }
}

} // verus!
