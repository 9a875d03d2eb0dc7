//! One page table: a 512-entry array of raw entries. On hardware a present
//! entry of an upper level points at the frame holding the child table, and
//! the walk reaches that child by dereferencing physical memory (through the
//! recursive self-mapping). Here the child tables are carried alongside the
//! raw entries, one owned child per present non-huge entry, so the same walk
//! is an ordinary tree descent.

use vstd::prelude::*;
use crate::memory::entry::{Entry, ADDRESS_MASK, ALL_FLAGS, HUGE_PAGE, PRESENT};
use crate::memory::entry::{flag_set, lemma_zero_entry_bits, spec_frame_number};

verus! {

/// Number of entries in one table.
pub const ENTRY_COUNT: usize = 512;

/// Index of the level-4 slot reserved for the recursive self-mapping.
pub const RECURSIVE_INDEX: usize = 511;

/// One level of the paging hierarchy: 512 raw entries, and the owned child
/// table standing behind each present non-huge entry.
pub struct Table {
    /// The raw 64-bit entries, exactly as hardware would read them.
    pub entries: Vec<Entry>,
    /// The child table behind each entry; `None` for unused and huge entries.
    pub children: Vec<Option<Box<Table>>>,
}

/// Raw entry `i` of table `t`.
pub open spec fn entry_at(t: Table, i: int) -> u64 {
    t.entries@[i].value
}

/// The entry points at a child table: present and not huge.
pub open spec fn points_to_table(v: u64) -> bool {
    flag_set(v, PRESENT) && !flag_set(v, HUGE_PAGE)
}

/// Both arrays of the table have exactly 512 slots.
pub open spec fn table_shape(t: Table) -> bool {
    &&& t.entries@.len() == 512
    &&& t.children@.len() == 512
}

/// A well-formed level-1 table: leaf entries only, no children at all.
pub open spec fn wf1(t: Table) -> bool {
    &&& table_shape(t)
    &&& forall|i: int| 0 <= i < 512 ==> (#[trigger] t.children@[i]) is None
}

/// A well-formed level-2 table: a child stands behind exactly the present
/// non-huge entries, every child is a well-formed level-1 table, and every
/// present huge entry denotes a 2 MiB page, so its frame is 512-aligned.
pub open spec fn wf2(t: Table) -> bool {
    &&& table_shape(t)
    &&& forall|i: int|
        0 <= i < 512 ==> ((#[trigger] t.children@[i]) is Some <==> points_to_table(entry_at(t, i)))
    &&& forall|i: int|
        0 <= i < 512 ==> match #[trigger] t.children@[i] {
            Some(c) => wf1(*c),
            None => true,
        }
    &&& forall|i: int|
        0 <= i < 512 && flag_set(#[trigger] entry_at(t, i), PRESENT) && flag_set(
            entry_at(t, i),
            HUGE_PAGE,
        ) ==> spec_frame_number(entry_at(t, i)) % 512 == 0
}

/// A well-formed level-3 table: children behind exactly the present non-huge
/// entries, every child a well-formed level-2 table, and every present huge
/// entry denotes a 1 GiB page, so its frame is 262144-aligned.
pub open spec fn wf3(t: Table) -> bool {
    &&& table_shape(t)
    &&& forall|i: int|
        0 <= i < 512 ==> ((#[trigger] t.children@[i]) is Some <==> points_to_table(entry_at(t, i)))
    &&& forall|i: int|
        0 <= i < 512 ==> match #[trigger] t.children@[i] {
            Some(c) => wf2(*c),
            None => true,
        }
    &&& forall|i: int|
        0 <= i < 512 && flag_set(#[trigger] entry_at(t, i), PRESENT) && flag_set(
            entry_at(t, i),
            HUGE_PAGE,
        ) ==> spec_frame_number(entry_at(t, i)) % 262144 == 0
}

/// A well-formed level-4 table: slot 511 is reserved for the recursive
/// self-mapping and never carries a child; each other slot carries a child
/// exactly behind a present non-huge entry, every child a well-formed level-3
/// table; level-4 entries are never huge.
pub open spec fn wf4(t: Table) -> bool {
    &&& table_shape(t)
    &&& t.children@[511] is None
    &&& forall|i: int|
        0 <= i < 511 ==> ((#[trigger] t.children@[i]) is Some <==> points_to_table(entry_at(t, i)))
    &&& forall|i: int|
        0 <= i < 511 ==> match #[trigger] t.children@[i] {
            Some(c) => wf3(*c),
            None => true,
        }
    &&& forall|i: int|
        0 <= i < 511 ==> !flag_set(#[trigger] entry_at(t, i), HUGE_PAGE)
}

/// What a level-1 table maps at slot `i1`: the frame number and the raw entry
/// that grants it, or nothing when the entry is not present.
pub open spec fn l1_map(t: Table, i1: int) -> Option<(int, u64)> {
    let e = entry_at(t, i1);
    if flag_set(e, PRESENT) {
        Some((spec_frame_number(e) as int, e))
    } else {
        None
    }
}

/// What a level-2 table maps at `(i2, i1)`: through the child table when one
/// stands there, else directly through a present huge entry, which maps the
/// `i1`-th frame of its 2 MiB region.
pub open spec fn l2_map(t: Table, i2: int, i1: int) -> Option<(int, u64)> {
    let e = entry_at(t, i2);
    match t.children@[i2] {
        Some(c) => l1_map(*c, i1),
        None => if flag_set(e, PRESENT) && flag_set(e, HUGE_PAGE) {
            Some((spec_frame_number(e) + i1, e))
        } else {
            None
        },
    }
}

/// What a level-3 table maps at `(i3, i2, i1)`: through the child table when
/// one stands there, else directly through a present huge entry, which maps
/// the `(i2 * 512 + i1)`-th frame of its 1 GiB region.
pub open spec fn l3_map(t: Table, i3: int, i2: int, i1: int) -> Option<(int, u64)> {
    let e = entry_at(t, i3);
    match t.children@[i3] {
        Some(c) => l2_map(*c, i2, i1),
        None => if flag_set(e, PRESENT) && flag_set(e, HUGE_PAGE) {
            Some((spec_frame_number(e) + i2 * 512 + i1, e))
        } else {
            None
        },
    }
}

/// What a level-4 table maps at `(i4, i3, i2, i1)`. Level-4 entries are never
/// huge, so without a child table nothing is mapped.
pub open spec fn l4_map(t: Table, i4: int, i3: int, i2: int, i1: int) -> Option<(int, u64)> {
    match t.children@[i4] {
        Some(c) => l3_map(*c, i3, i2, i1),
        None => None,
    }
}

impl Table {
    /// A zeroed table with no children.
    pub fn new() -> (r: Table)
        ensures
            table_shape(r),
            forall|i: int| 0 <= i < 512 ==> entry_at(r, i) == 0,
            forall|i: int| 0 <= i < 512 ==> (#[trigger] r.children@[i]) is None,
            table_empty(r),
            wf1(r),
            wf2(r),
            wf3(r),
            wf4(r),
            forall|i3: int, i2: int, i1: int|
                0 <= i3 < 512 ==> l3_map(r, i3, i2, i1) is None,
            forall|i2: int, i1: int| 0 <= i2 < 512 ==> l2_map(r, i2, i1) is None,
            forall|i4: int, i3: int, i2: int, i1: int|
                0 <= i4 < 512 ==> l4_map(r, i4, i3, i2, i1) is None,
    {
        let mut entries: Vec<Entry> = Vec::new();
        let mut children: Vec<Option<Box<Table>>> = Vec::new();
        let mut i: usize = 0;
        while i < 512
            invariant
                i <= 512,
                entries@.len() == i,
                children@.len() == i,
                forall|j: int| 0 <= j < i ==> entries@[j].value == 0,
                forall|j: int| 0 <= j < i ==> (#[trigger] children@[j]) is None,
            decreases 512 - i,
        {
            entries.push(Entry::new());
            children.push(None);
            i = i + 1;
        }
        let r = Table { entries, children };
        proof {
            assert(table_empty(r));
            assert forall|i: int| 0 <= i < 512 implies !flag_set(#[trigger] entry_at(r, i), PRESENT)
                && !flag_set(entry_at(r, i), HUGE_PAGE) && !points_to_table(entry_at(r, i)) by {
                assert(0u64 & 1u64 != 1u64 && 0u64 & 0x80u64 != 0x80u64) by (bit_vector);
            }
        }
        r
    }
}

/// A table with every entry cleared and no children.
pub open spec fn table_empty(t: Table) -> bool {
    &&& table_shape(t)
    &&& forall|i: int| 0 <= i < 512 ==> entry_at(t, i) == 0
    &&& forall|i: int| 0 <= i < 512 ==> (#[trigger] t.children@[i]) is None
}

/// An empty table is well formed at every level and maps nothing.
pub proof fn lemma_empty_table_props(t: Table)
    requires
        table_empty(t),
    ensures
        wf1(t),
        wf2(t),
        wf3(t),
        wf4(t),
        forall|i1: int| 0 <= i1 < 512 ==> l1_map(t, i1) is None,
        forall|i3: int, i2: int, i1: int| 0 <= i3 < 512 ==> l3_map(t, i3, i2, i1) is None,
        forall|i2: int, i1: int| 0 <= i2 < 512 ==> l2_map(t, i2, i1) is None,
        forall|i4: int, i3: int, i2: int, i1: int|
            0 <= i4 < 512 ==> l4_map(t, i4, i3, i2, i1) is None,
{
    assert forall|i: int| 0 <= i < 512 implies !flag_set(#[trigger] entry_at(t, i), PRESENT)
        && !flag_set(entry_at(t, i), HUGE_PAGE) && !points_to_table(entry_at(t, i)) by {
        lemma_zero_entry_bits();
    }
}

/// Two tables agreeing on every slot but `i1` have the same level-1 maps
/// outside `i1`.
pub proof fn lemma_l1_update_one(a: Table, b: Table, i1: int)
    requires
        forall|j: int|
            0 <= j < 512 && j != i1 ==> a.entries@[j] == b.entries@[j] && a.children@[j]
                == b.children@[j],
    ensures
        forall|j1: int| 0 <= j1 < 512 && j1 != i1 ==> l1_map(b, j1) == l1_map(a, j1),
{
}

/// Two tables agreeing on every slot but `i2` have the same level-2 maps
/// outside `i2`.
pub proof fn lemma_l2_update_one(a: Table, b: Table, i2: int)
    requires
        forall|j: int|
            0 <= j < 512 && j != i2 ==> a.entries@[j] == b.entries@[j] && a.children@[j]
                == b.children@[j],
    ensures
        forall|j2: int, j1: int|
            0 <= j2 < 512 && j2 != i2 ==> l2_map(b, j2, j1) == l2_map(a, j2, j1),
{
}

/// Two tables agreeing on every slot but `i3` have the same level-3 maps
/// outside `i3`.
pub proof fn lemma_l3_update_one(a: Table, b: Table, i3: int)
    requires
        forall|j: int|
            0 <= j < 512 && j != i3 ==> a.entries@[j] == b.entries@[j] && a.children@[j]
                == b.children@[j],
    ensures
        forall|j3: int, j2: int, j1: int|
            0 <= j3 < 512 && j3 != i3 ==> l3_map(b, j3, j2, j1) == l3_map(a, j3, j2, j1),
{
}

/// Two tables agreeing on every slot but `i4` have the same level-4 maps
/// outside `i4`.
pub proof fn lemma_l4_update_one(a: Table, b: Table, i4: int)
    requires
        forall|j: int|
            0 <= j < 512 && j != i4 ==> a.entries@[j] == b.entries@[j] && a.children@[j]
                == b.children@[j],
    ensures
        forall|j4: int, j3: int, j2: int, j1: int|
            0 <= j4 < 512 && j4 != i4 ==> l4_map(b, j4, j3, j2, j1) == l4_map(a, j4, j3, j2, j1),
{
}

/// The child table at slot `i` (meaningful only when one stands there).
pub open spec fn child_table(t: Table, i: int) -> Table {
    match t.children@[i] {
        Some(c) => *c,
        None => vstd::pervasive::arbitrary(),
    }
}

/// Installing a fresh empty child behind an unused slot of a level-2 table
/// keeps it well formed and changes no mapping.
pub proof fn lemma_grow2(a: Table, b: Table, i2: int)
    requires
        0 <= i2 < 512,
        wf2(a),
        b == a || ({
            &&& table_shape(b)
            &&& !flag_set(entry_at(a, i2), PRESENT)
            &&& points_to_table(entry_at(b, i2))
            &&& b.entries@ == a.entries@.update(i2, b.entries@[i2])
            &&& b.children@ == a.children@.update(i2, b.children@[i2])
            &&& (b.children@[i2] matches Some(c) && table_empty(*c))
        }),
    ensures
        wf2(b),
        forall|j2: int, j1: int|
            0 <= j2 < 512 && 0 <= j1 < 512 ==> l2_map(b, j2, j1) == l2_map(a, j2, j1),
        entry_at(b, i2) == entry_at(a, i2) || !flag_set(entry_at(a, i2), PRESENT),
{
    if b == a {
    } else {
        assert forall|j: int| 0 <= j < 512 && j != i2 implies #[trigger] entry_at(b, j)
            == entry_at(a, j) && b.children@[j] == a.children@[j] by {}
        lemma_empty_table_props(child_table(b, i2));
        lemma_l2_update_one(a, b, i2);
        assert forall|j1: int| 0 <= j1 < 512 implies #[trigger] l2_map(b, i2, j1) == l2_map(
            a,
            i2,
            j1,
        ) by {
            assert(l1_map(child_table(b, i2), j1) is None);
            assert(!(flag_set(entry_at(a, i2), PRESENT) && flag_set(entry_at(a, i2), HUGE_PAGE)));
            assert(a.children@[i2] is None);
        }
    }
}

/// Installing a fresh empty child behind an unused slot of a level-3 table
/// keeps it well formed and changes no mapping.
pub proof fn lemma_grow3(a: Table, b: Table, i3: int)
    requires
        0 <= i3 < 512,
        wf3(a),
        b == a || ({
            &&& table_shape(b)
            &&& !flag_set(entry_at(a, i3), PRESENT)
            &&& points_to_table(entry_at(b, i3))
            &&& b.entries@ == a.entries@.update(i3, b.entries@[i3])
            &&& b.children@ == a.children@.update(i3, b.children@[i3])
            &&& (b.children@[i3] matches Some(c) && table_empty(*c))
        }),
    ensures
        wf3(b),
        forall|j3: int, j2: int, j1: int|
            0 <= j3 < 512 && 0 <= j2 < 512 && 0 <= j1 < 512 ==> l3_map(b, j3, j2, j1) == l3_map(
                a,
                j3,
                j2,
                j1,
            ),
        entry_at(b, i3) == entry_at(a, i3) || !flag_set(entry_at(a, i3), PRESENT),
{
    if b == a {
    } else {
        assert forall|j: int| 0 <= j < 512 && j != i3 implies #[trigger] entry_at(b, j)
            == entry_at(a, j) && b.children@[j] == a.children@[j] by {}
        lemma_empty_table_props(child_table(b, i3));
        lemma_l3_update_one(a, b, i3);
        assert forall|j2: int, j1: int|
            0 <= j2 < 512 && 0 <= j1 < 512 implies #[trigger] l3_map(b, i3, j2, j1) == l3_map(
            a,
            i3,
            j2,
            j1,
        ) by {
            assert(l2_map(child_table(b, i3), j2, j1) is None);
            assert(a.children@[i3] is None);
        }
    }
}

/// Installing a fresh empty child behind an unused non-reserved slot of a
/// level-4 table keeps it well formed and changes no mapping.
pub proof fn lemma_grow4(a: Table, b: Table, i4: int)
    requires
        0 <= i4 < 511,
        wf4(a),
        b == a || ({
            &&& table_shape(b)
            &&& !flag_set(entry_at(a, i4), PRESENT)
            &&& points_to_table(entry_at(b, i4))
            &&& b.entries@ == a.entries@.update(i4, b.entries@[i4])
            &&& b.children@ == a.children@.update(i4, b.children@[i4])
            &&& (b.children@[i4] matches Some(c) && table_empty(*c))
        }),
    ensures
        wf4(b),
        forall|j4: int, j3: int, j2: int, j1: int|
            0 <= j4 < 512 && 0 <= j3 < 512 && 0 <= j2 < 512 && 0 <= j1 < 512 ==> l4_map(
                b,
                j4,
                j3,
                j2,
                j1,
            ) == l4_map(a, j4, j3, j2, j1),
{
    if b == a {
    } else {
        assert forall|j: int| 0 <= j < 512 && j != i4 implies #[trigger] entry_at(b, j)
            == entry_at(a, j) && b.children@[j] == a.children@[j] by {}
        lemma_empty_table_props(child_table(b, i4));
        lemma_l4_update_one(a, b, i4);
        assert forall|j3: int, j2: int, j1: int|
            0 <= j3 < 512 && 0 <= j2 < 512 && 0 <= j1 < 512 implies #[trigger] l4_map(
            b,
            i4,
            j3,
            j2,
            j1,
        ) == l4_map(a, i4, j3, j2, j1) by {
            assert(l3_map(child_table(b, i4), j3, j2, j1) is None);
            assert(a.children@[i4] is None);
        }
    }
}

/// Replacing the child behind slot `i2` of a level-2 table with another
/// well-formed level-1 table keeps it well formed; mappings outside `i2`
/// stay, and under `i2` the new child decides.
pub proof fn lemma_replace_child2(a: Table, b: Table, i2: int)
    requires
        0 <= i2 < 512,
        wf2(a),
        a.children@[i2] is Some,
        b.entries@ == a.entries@,
        b.children@ == a.children@.update(i2, b.children@[i2]),
        (b.children@[i2] matches Some(c) && wf1(*c)),
    ensures
        wf2(b),
        forall|j2: int, j1: int|
            0 <= j2 < 512 && j2 != i2 ==> l2_map(b, j2, j1) == l2_map(a, j2, j1),
        forall|j1: int| l2_map(b, i2, j1) == l1_map(child_table(b, i2), j1),
{
    assert forall|j: int| 0 <= j < 512 implies #[trigger] entry_at(b, j) == entry_at(a, j) by {}
    lemma_l2_update_one(a, b, i2);
}

/// Replacing the child behind slot `i3` of a level-3 table with another
/// well-formed level-2 table keeps it well formed; mappings outside `i3`
/// stay, and under `i3` the new child decides.
pub proof fn lemma_replace_child3(a: Table, b: Table, i3: int)
    requires
        0 <= i3 < 512,
        wf3(a),
        a.children@[i3] is Some,
        b.entries@ == a.entries@,
        b.children@ == a.children@.update(i3, b.children@[i3]),
        (b.children@[i3] matches Some(c) && wf2(*c)),
    ensures
        wf3(b),
        forall|j3: int, j2: int, j1: int|
            0 <= j3 < 512 && j3 != i3 ==> l3_map(b, j3, j2, j1) == l3_map(a, j3, j2, j1),
        forall|j2: int, j1: int| l3_map(b, i3, j2, j1) == l2_map(child_table(b, i3), j2, j1),
{
    assert forall|j: int| 0 <= j < 512 implies #[trigger] entry_at(b, j) == entry_at(a, j) by {}
    lemma_l3_update_one(a, b, i3);
}

/// Replacing the child behind slot `i4` of a level-4 table with another
/// well-formed level-3 table keeps it well formed; mappings outside `i4`
/// stay, and under `i4` the new child decides.
pub proof fn lemma_replace_child4(a: Table, b: Table, i4: int)
    requires
        0 <= i4 < 511,
        wf4(a),
        a.children@[i4] is Some,
        b.entries@ == a.entries@,
        b.children@ == a.children@.update(i4, b.children@[i4]),
        (b.children@[i4] matches Some(c) && wf3(*c)),
    ensures
        wf4(b),
        forall|j4: int, j3: int, j2: int, j1: int|
            0 <= j4 < 512 && j4 != i4 ==> l4_map(b, j4, j3, j2, j1) == l4_map(a, j4, j3, j2, j1),
        forall|j3: int, j2: int, j1: int|
            l4_map(b, i4, j3, j2, j1) == l3_map(child_table(b, i4), j3, j2, j1),
{
    assert forall|j: int| 0 <= j < 512 implies #[trigger] entry_at(b, j) == entry_at(a, j) by {}
    lemma_l4_update_one(a, b, i4);
}

/// Writing a present huge entry at a childless slot `i3` of a level-3 table
/// keeps it well formed and maps the whole 1 GiB range of indices under `i3`
/// into the entry's region.
pub proof fn lemma_set_huge3(a: Table, b: Table, i3: int, v: u64)
    requires
        0 <= i3 < 512,
        wf3(a),
        a.children@[i3] is None,
        b.children@ == a.children@,
        b.entries@ == a.entries@.update(i3, Entry { value: v }),
        flag_set(v, PRESENT),
        flag_set(v, HUGE_PAGE),
        spec_frame_number(v) % 262144 == 0,
    ensures
        wf3(b),
        forall|j3: int, j2: int, j1: int|
            0 <= j3 < 512 && j3 != i3 ==> l3_map(b, j3, j2, j1) == l3_map(a, j3, j2, j1),
        forall|j2: int, j1: int|
            l3_map(b, i3, j2, j1) == Some(
                ((spec_frame_number(v) + j2 * 512 + j1) as int, v),
            ),
{
    assert forall|j: int| 0 <= j < 512 && j != i3 implies #[trigger] entry_at(b, j) == entry_at(
        a,
        j,
    ) && b.children@[j] == a.children@[j] by {}
    lemma_l3_update_one(a, b, i3);
}

/// Writing a present huge entry at a childless slot `i2` of a level-2 table
/// keeps it well formed and maps the whole 2 MiB range of indices under `i2`
/// into the entry's region.
pub proof fn lemma_set_huge2(a: Table, b: Table, i2: int, v: u64)
    requires
        0 <= i2 < 512,
        wf2(a),
        a.children@[i2] is None,
        b.children@ == a.children@,
        b.entries@ == a.entries@.update(i2, Entry { value: v }),
        flag_set(v, PRESENT),
        flag_set(v, HUGE_PAGE),
        spec_frame_number(v) % 512 == 0,
    ensures
        wf2(b),
        forall|j2: int, j1: int|
            0 <= j2 < 512 && j2 != i2 ==> l2_map(b, j2, j1) == l2_map(a, j2, j1),
        forall|j1: int| l2_map(b, i2, j1) == Some(((spec_frame_number(v) + j1) as int, v)),
{
    assert forall|j: int| 0 <= j < 512 && j != i2 implies #[trigger] entry_at(b, j) == entry_at(
        a,
        j,
    ) && b.children@[j] == a.children@[j] by {}
    lemma_l2_update_one(a, b, i2);
}

/// Writing a present leaf entry at slot `i1` of a level-1 table keeps it well
/// formed, maps exactly that slot to the entry's frame, and leaves the other
/// slots as they were.
pub proof fn lemma_set_leaf(a: Table, b: Table, i1: int, v: u64)
    requires
        0 <= i1 < 512,
        wf1(a),
        b.children@ == a.children@,
        b.entries@ == a.entries@.update(i1, Entry { value: v }),
    ensures
        wf1(b),
        forall|j1: int| 0 <= j1 < 512 && j1 != i1 ==> l1_map(b, j1) == l1_map(a, j1),
        l1_map(b, i1) == if flag_set(v, PRESENT) {
            Some((spec_frame_number(v) as int, v))
        } else {
            None::<(int, u64)>
        },
{
    lemma_l1_update_one(a, b, i1);
}

/// Two level-4 tables agreeing on slot `j4` map the same under it.
pub proof fn lemma_l4_same_slot(a: Table, b: Table, j4: int, j3: int, j2: int, j1: int)
    requires
        a.children@[j4] == b.children@[j4],
    ensures
        l4_map(a, j4, j3, j2, j1) == l4_map(b, j4, j3, j2, j1),
{
}

} // verus!
