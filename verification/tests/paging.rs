//! Translation, mapping and unmapping on a staged hierarchy.

use parkos::memory::area_frame_allocator::AreaFrameAllocator;
use parkos::memory::entry::{EntryFlags, HUGE_PAGE, NO_EXECUTE, PRESENT, WRITABLE};
use parkos::memory::page::Page;
use parkos::memory::pagetable::{MapError, PageTable};
use parkos::memory::{Frame, FrameAllocator, MemoryArea};

fn plain_allocator() -> AreaFrameAllocator {
    AreaFrameAllocator::new(
        0,
        0,
        0,
        0,
        vec![MemoryArea { base_addr: 0x100000, length: 0x100000 }],
    )
}

#[test]
fn unmapped_address_translates_to_none() {
    let pt = PageTable::new();
    assert_eq!(pt.translate(0), None);
    assert_eq!(pt.translate(0x300000), None);
    assert_eq!(pt.translate(0x7fff_ffff_f123), None);
    assert_eq!(pt.translate(0xffff_8000_0000_0000), None);
}

#[test]
fn map_to_then_translate_yields_frame() {
    let mut pt = PageTable::new();
    let mut a = plain_allocator();
    let page = Page::containing_address(42 * 512 * 512 * 4096);
    let frame = Frame::containing_address(0x123000);
    pt.map_to(page, frame, EntryFlags::empty(), &mut a).expect("mapping a clear page goes through");
    assert_eq!(pt.translate(page.start_address()), Some(0x123000));
    // The offset within the page is reapplied.
    assert_eq!(pt.translate(page.start_address() + 0x77), Some(0x123077));
    // A neighbouring page stays unmapped.
    assert_eq!(pt.translate(page.start_address() + 0x1000), None);
}

#[test]
fn map_allocates_the_next_free_frame() {
    let mut pt = PageTable::new();
    let mut a = plain_allocator();
    pt.map(
        Page::containing_address(0x300000),
        EntryFlags::from_bits_truncate(WRITABLE),
        &mut a,
    ).expect("mapping a clear page goes through");
    // The backing frame is allocated before the intermediate tables, so it
    // is the area's first frame.
    assert_eq!(pt.translate(0x300000 + 0x10), Some(0x100000 + 0x10));
}

#[test]
fn unmap_restores_none() {
    let mut pt = PageTable::new();
    let mut a = plain_allocator();
    let page = Page::containing_address(0x300000);
    let other = Page::containing_address(0x5000_0000);
    let frame = Frame::containing_address(0x42000);
    let keep = Frame::containing_address(0x99000);
    assert_eq!(pt.translate(0x300000), None);
    pt.map_to(other, keep, EntryFlags::empty(), &mut a).unwrap();
    pt.map_to(page, frame, EntryFlags::empty(), &mut a).unwrap();
    assert_eq!(pt.translate(0x300000), Some(0x42000));
    pt.unmap(page, &mut a).expect("unmapping a mapped page goes through");
    // Round trip: the unmapped page translates to nothing again, and the
    // other mapping is untouched.
    assert_eq!(pt.translate(0x300000), None);
    assert_eq!(pt.translate(0x5000_0000), Some(0x99000));
}

#[test]
fn sibling_pages_share_their_tables() {
    let mut pt = PageTable::new();
    let mut a = plain_allocator();
    // Two pages of the same level-1 table, and one of a sibling level-3
    // subtree: each keeps its own mapping.
    pt.map_to(
        Page::containing_address(0x300000),
        Frame::containing_address(0x111000),
        EntryFlags::empty(),
        &mut a,
    ).unwrap();
    pt.map_to(
        Page::containing_address(0x301000),
        Frame::containing_address(0x222000),
        EntryFlags::empty(),
        &mut a,
    ).unwrap();
    pt.map_to(
        Page::containing_address(0x5000_0000),
        Frame::containing_address(0x333000),
        EntryFlags::empty(),
        &mut a,
    ).unwrap();
    assert_eq!(pt.translate(0x300000), Some(0x111000));
    assert_eq!(pt.translate(0x301000), Some(0x222000));
    assert_eq!(pt.translate(0x5000_0000), Some(0x333000));
    // Unmapping one sibling leaves the other two.
    pt.unmap(Page::containing_address(0x301000), &mut a).unwrap();
    assert_eq!(pt.translate(0x300000), Some(0x111000));
    assert_eq!(pt.translate(0x301000), None);
    assert_eq!(pt.translate(0x5000_0000), Some(0x333000));
}

#[test]
fn map_to_consumes_one_frame_per_missing_level() {
    let mut pt = PageTable::new();
    let mut a = plain_allocator();
    // Three tables are created on the way down, eating the area's first
    // three frames in walk order; each intermediate entry names its child's
    // fresh frame with PRESENT and WRITABLE.
    let page = Page::containing_address(0x300000);
    pt.map_to(page, Frame::containing_address(0x42000), EntryFlags::empty(), &mut a).unwrap();
    let e4 = pt.p4.entries[page.p4_index()];
    assert_eq!(e4.value, 0x100000 | PRESENT | WRITABLE);
    let p3 = pt.p4.children[page.p4_index()].as_ref().unwrap();
    assert_eq!(p3.entries[page.p3_index()].value, 0x101000 | PRESENT | WRITABLE);
    let p2 = p3.children[page.p3_index()].as_ref().unwrap();
    assert_eq!(p2.entries[page.p2_index()].value, 0x102000 | PRESENT | WRITABLE);
    // The next free frame is the fourth one.
    assert_eq!(a.allocate_frame(), Some(Frame::containing_address(0x103000)));
    // A sibling page reuses the tables: no further frame is consumed.
    pt.map_to(
        Page::containing_address(0x301000),
        Frame::containing_address(0x43000),
        EntryFlags::empty(),
        &mut a,
    ).unwrap();
    assert_eq!(a.allocate_frame(), Some(Frame::containing_address(0x104000)));
}

#[test]
fn unmap_keeps_the_intermediate_tables() {
    let mut pt = PageTable::new();
    let mut a = plain_allocator();
    let page = Page::containing_address(0x300000);
    pt.map_to(page, Frame::containing_address(0x42000), EntryFlags::empty(), &mut a).unwrap();
    pt.unmap(page, &mut a).unwrap();
    // The walk's tables are deliberately not reclaimed: remapping the page
    // allocates nothing new.
    pt.map_to(page, Frame::containing_address(0x43000), EntryFlags::empty(), &mut a).unwrap();
    assert_eq!(pt.translate(0x300000), Some(0x43000));
    assert_eq!(a.allocate_frame(), Some(Frame::containing_address(0x103000)));
}

#[test]
fn unmap_of_unmapped_page_is_refused() {
    let mut pt = PageTable::new();
    let mut a = plain_allocator();
    let r = pt.unmap(Page::containing_address(0x300000), &mut a);
    assert_eq!(r, Err(MapError::NotMapped));
}

#[test]
fn double_map_is_refused() {
    let mut pt = PageTable::new();
    let mut a = plain_allocator();
    let page = Page::containing_address(0x300000);
    pt.map_to(page, Frame::containing_address(0x42000), EntryFlags::empty(), &mut a).unwrap();
    let r = pt.map_to(page, Frame::containing_address(0x43000), EntryFlags::empty(), &mut a);
    assert_eq!(r, Err(MapError::AlreadyMapped));
    // The first mapping stands.
    assert_eq!(pt.translate(0x300000), Some(0x42000));
}

#[test]
fn recursive_slot_is_refused() {
    let mut pt = PageTable::new();
    let mut a = plain_allocator();
    // An address whose level-4 index is 511, in the canonical upper half.
    let page = Page::containing_address(0xffff_ff80_0000_0000);
    let r = pt.map_to(page, Frame::containing_address(0x42000), EntryFlags::empty(), &mut a);
    assert_eq!(r, Err(MapError::ReservedEntry));
}

#[test]
fn exhausted_allocator_refuses_map() {
    let mut pt = PageTable::new();
    let mut empty = AreaFrameAllocator::new(0, 0, 0, 0, Vec::new());
    let r = pt.map(
        Page::containing_address(0x300000),
        EntryFlags::empty(),
        &mut empty,
    );
    assert_eq!(r, Err(MapError::FrameExhausted));
    let r2 = pt.map_to(
        Page::containing_address(0x300000),
        Frame::containing_address(0x42000),
        EntryFlags::empty(),
        &mut empty,
    );
    assert_eq!(r2, Err(MapError::FrameExhausted));
}

#[test]
fn one_gib_entry_decodes_every_offset() {
    let mut pt = PageTable::new();
    let mut a = plain_allocator();
    // The 1 GiB region starting at virtual 0x40000000, identity-mapped: the
    // entry's frame number 262144 is 262144-aligned.
    let base: u64 = 0x4000_0000;
    let page = Page::containing_address(base);
    let frame = Frame::containing_address(base);
    pt.map_to_1gib(page, frame, EntryFlags::empty(), &mut a).expect("aligned huge mapping");
    for k in [0u64, 1, 511, 512, 513, 262143] {
        assert_eq!(pt.translate(base + k * 4096), Some(base / 4096 * 4096 + k * 4096));
        assert_eq!(
            pt.translate(base + k * 4096),
            Some((base / 4096 + k) * 4096),
        );
    }
    assert_eq!(pt.translate(base + 123 * 4096 + 0xabc), Some(base + 123 * 4096 + 0xabc));
    // One byte past the region is unmapped.
    assert_eq!(pt.translate(base + 262144 * 4096), None);
}

#[test]
fn misaligned_huge_mappings_are_refused() {
    let mut pt = PageTable::new();
    let mut a = plain_allocator();
    let r = pt.map_to_1gib(
        Page::containing_address(0x4000_0000),
        Frame::containing_address(0x1000),
        EntryFlags::empty(),
        &mut a,
    );
    assert_eq!(r, Err(MapError::Misaligned));
    let r2 = pt.map_to_2mib(
        Page::containing_address(0x20_0000),
        Frame::containing_address(0x1000),
        EntryFlags::empty(),
        &mut a,
    );
    assert_eq!(r2, Err(MapError::Misaligned));
}

#[test]
fn two_mib_entry_decodes_and_refuses_unmap() {
    let mut pt = PageTable::new();
    let mut a = plain_allocator();
    let base: u64 = 0x20_0000;
    pt.map_to_2mib(
        Page::containing_address(base),
        Frame::containing_address(0x40_0000),
        EntryFlags::from_bits_truncate(WRITABLE),
        &mut a,
    ).expect("aligned huge mapping");
    assert_eq!(pt.translate(base), Some(0x40_0000));
    assert_eq!(pt.translate(base + 511 * 4096 + 5), Some(0x40_0000 + 511 * 4096 + 5));
    assert_eq!(pt.translate(base + 512 * 4096), None);
    // Unmapping through a huge mapping is not supported.
    let r = pt.unmap(Page::containing_address(base), &mut a);
    assert_eq!(r, Err(MapError::HugePage));
    assert_eq!(pt.translate(base), Some(0x40_0000));
}

#[test]
fn page_indices_decompose_the_address() {
    // number = (i4 << 27) | (i3 << 18) | (i2 << 9) | i1 with
    // (i4, i3, i2, i1) = (3, 5, 7, 9).
    let number: u64 = (3 << 27) | (5 << 18) | (7 << 9) | 9;
    let page = Page::containing_address(number * 4096);
    assert_eq!(page.p4_index(), 3);
    assert_eq!(page.p3_index(), 5);
    assert_eq!(page.p2_index(), 7);
    assert_eq!(page.p1_index(), 9);
    assert_eq!(page.start_address(), number * 4096);
}

#[test]
fn mapped_entry_carries_the_flags() {
    let mut pt = PageTable::new();
    let mut a = plain_allocator();
    let page = Page::containing_address(0x300000);
    let frame = Frame::containing_address(0x42000);
    let flags = EntryFlags::from_bits_truncate(WRITABLE | NO_EXECUTE);
    pt.map_to(page, frame, flags, &mut a).unwrap();
    // Walk the owned hierarchy down to the leaf entry.
    let p3 = pt.p4.children[page.p4_index()].as_ref().unwrap();
    let p2 = p3.children[page.p3_index()].as_ref().unwrap();
    let p1 = p2.children[page.p2_index()].as_ref().unwrap();
    let leaf = p1.entries[page.p1_index()];
    assert_eq!(leaf.value, 0x42000 | PRESENT | WRITABLE | NO_EXECUTE);
    assert!(leaf.flags().contains(EntryFlags::from_bits_truncate(PRESENT | WRITABLE)));
    assert!(!leaf.flags().contains(EntryFlags::from_bits_truncate(HUGE_PAGE)));
    assert_eq!(leaf.pointed_frame(), Some(Frame::containing_address(0x42000)));
}
