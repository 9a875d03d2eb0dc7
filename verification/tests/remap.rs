//! Staging a replacement hierarchy and remapping kernel sections.

use parkos::memory::area_frame_allocator::AreaFrameAllocator;
use parkos::memory::entry::{
    ElfSectionInfo, Entry, EntryFlags, NO_EXECUTE, PRESENT, WRITABLE,
};
use parkos::memory::page::Page;
use parkos::memory::pagetable::{remap_kernel, MapError, PageTable, TempPageTable, TempPageTableMapper};
use parkos::memory::{Frame, MemoryArea};

fn boot_allocator() -> AreaFrameAllocator {
    // The kernel occupies [0x100000, 0x102000); table frames come from the
    // rest of the area.
    AreaFrameAllocator::new(
        0x100000,
        0x102000,
        0,
        0,
        vec![MemoryArea { base_addr: 0x100000, length: 0x100000 }],
    )
}

#[test]
fn staged_root_carries_its_self_reference() {
    let mut active = PageTable::new();
    let mut a = boot_allocator();
    let temp = TempPageTable::new_page_table(
        Page::containing_address(0xdeadbeef),
        &mut active,
        &mut a,
    ).expect("staging goes through");
    // The root frame is the first free one, and slot 511 points back at it.
    assert_eq!(temp.frame, Frame::containing_address(0x102000));
    assert_eq!(temp.table.p4.entries[511].value, 0x102000 | PRESENT | WRITABLE);
    assert_eq!(
        temp.table.p4.entries[511].pointed_frame(),
        Some(Frame::containing_address(0x102000)),
    );
    // The staging page is unmapped again in the active table.
    assert_eq!(active.translate(0xdeadbeef), None);
    // The staged hierarchy maps nothing yet.
    assert_eq!(temp.table.translate(0), None);
    assert_eq!(temp.table.translate(0x102000), None);
}

#[test]
fn identity_map_maps_the_frame_at_its_own_address() {
    let mut pt = PageTable::new();
    let mut a = boot_allocator();
    let mut mapper = TempPageTableMapper { table: &mut pt };
    mapper.identity_map(
        Frame::containing_address(0x42000),
        EntryFlags::from_bits_truncate(WRITABLE),
        &mut a,
    ).expect("mapping a clear page goes through");
    assert_eq!(pt.translate(0x42000), Some(0x42000));
    assert_eq!(pt.translate(0x42abc), Some(0x42abc));
}

#[test]
fn remap_kernel_identity_maps_a_section() {
    let mut active = PageTable::new();
    let mut a = boot_allocator();
    let sections = vec![ElfSectionInfo {
        addr: 0x100000,
        size: 0x2000,
        allocated: true,
        writable: true,
        executable: false,
    }];
    let temp = remap_kernel(&mut active, &sections, &mut a).expect("remapping goes through");
    // Identity mapping: the section's two pages translate to themselves.
    assert_eq!(temp.table.translate(0x100000), Some(0x100000));
    assert_eq!(temp.table.translate(0x101000), Some(0x101000));
    assert_eq!(temp.table.translate(0x100abc), Some(0x100abc));
    // One page past the section is unmapped.
    assert_eq!(temp.table.translate(0x102000), None);
    // The mapping carries WRITABLE and, for a non-executable section,
    // NO_EXECUTE.
    let page = Page::containing_address(0x100000);
    let p3 = temp.table.p4.children[page.p4_index()].as_ref().unwrap();
    let p2 = p3.children[page.p3_index()].as_ref().unwrap();
    let p1 = p2.children[page.p2_index()].as_ref().unwrap();
    let leaf = p1.entries[page.p1_index()];
    assert_eq!(leaf.value, 0x100000 | PRESENT | WRITABLE | NO_EXECUTE);
    // The active table is left translating exactly as before.
    assert_eq!(active.translate(0x100000), None);
    assert_eq!(active.translate(0xdeadbeef), None);
}

#[test]
fn remap_kernel_skips_unallocated_sections() {
    let mut active = PageTable::new();
    let mut a = boot_allocator();
    let sections = vec![
        ElfSectionInfo {
            addr: 0x500000,
            size: 0x1000,
            allocated: false,
            writable: false,
            executable: false,
        },
        ElfSectionInfo {
            addr: 0x100000,
            size: 0x1000,
            allocated: true,
            writable: false,
            executable: true,
        },
    ];
    let temp = remap_kernel(&mut active, &sections, &mut a).expect("remapping goes through");
    assert_eq!(temp.table.translate(0x500000), None);
    assert_eq!(temp.table.translate(0x100000), Some(0x100000));
    // An executable read-only section: present, not writable, executable.
    let page = Page::containing_address(0x100000);
    let p3 = temp.table.p4.children[page.p4_index()].as_ref().unwrap();
    let p2 = p3.children[page.p3_index()].as_ref().unwrap();
    let p1 = p2.children[page.p2_index()].as_ref().unwrap();
    assert_eq!(p1.entries[page.p1_index()].value, 0x100000 | PRESENT);
}

#[test]
fn remap_kernel_refuses_misaligned_sections() {
    let mut active = PageTable::new();
    let mut a = boot_allocator();
    let sections = vec![ElfSectionInfo {
        addr: 0x100800,
        size: 0x1000,
        allocated: true,
        writable: true,
        executable: false,
    }];
    let r = remap_kernel(&mut active, &sections, &mut a);
    assert!(matches!(r, Err(MapError::Misaligned)));
}

#[test]
fn section_protection_bits_follow_the_elf_flags() {
    let rw = ElfSectionInfo {
        addr: 0,
        size: 0,
        allocated: true,
        writable: true,
        executable: false,
    };
    assert_eq!(EntryFlags::from_elf_section_flags(&rw).bits(), PRESENT | WRITABLE | NO_EXECUTE);
    let rx = ElfSectionInfo { allocated: true, writable: false, executable: true, ..rw };
    assert_eq!(EntryFlags::from_elf_section_flags(&rx).bits(), PRESENT);
    let unused = ElfSectionInfo { allocated: false, writable: false, executable: false, ..rw };
    assert_eq!(EntryFlags::from_elf_section_flags(&unused).bits(), NO_EXECUTE);
}

#[test]
fn entry_stores_and_yields_its_frame() {
    let mut e = Entry::new();
    assert!(e.is_unused());
    assert_eq!(e.pointed_frame(), None);
    e.set(
        Frame::containing_address(0xabc000),
        EntryFlags::from_bits_truncate(PRESENT | WRITABLE),
    );
    assert!(!e.is_unused());
    assert_eq!(e.value, 0xabc000 | PRESENT | WRITABLE);
    assert_eq!(e.pointed_frame(), Some(Frame::containing_address(0xabc000)));
    assert_eq!(e.flags().bits(), PRESENT | WRITABLE);
    e.set_unused();
    assert!(e.is_unused());
    // Without PRESENT the address bits are meaningless: no frame.
    e.set(Frame::containing_address(0xabc000), EntryFlags::from_bits_truncate(WRITABLE));
    assert_eq!(e.pointed_frame(), None);
}

#[test]
fn flag_bits_are_truncated_to_known_ones() {
    let f = EntryFlags::from_bits_truncate(0xffff_ffff_ffff_ffff);
    assert_eq!(f.bits(), 0x8000_0000_0000_01ff);
    assert!(f.contains(EntryFlags::from_bits_truncate(PRESENT | NO_EXECUTE)));
    let e = EntryFlags::empty();
    assert_eq!(e.bits(), 0);
    assert!(!e.contains(EntryFlags::from_bits_truncate(PRESENT)));
    assert_eq!(e.union_with(f).bits(), 0x8000_0000_0000_01ff);
}
