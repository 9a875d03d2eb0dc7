//! The frame allocator and frame arithmetic, on concrete boot layouts.

use parkos::memory::area_frame_allocator::AreaFrameAllocator;
use parkos::memory::entry::ElfSectionInfo;
use parkos::memory::{kernel_bounds, Frame, FrameAllocator, MemoryArea};

fn allocator_over(
    kernel: (u64, u64),
    multiboot: (u64, u64),
    areas: Vec<MemoryArea>,
) -> AreaFrameAllocator {
    AreaFrameAllocator::new(kernel.0, kernel.1, multiboot.0, multiboot.1, areas)
}

#[test]
fn first_frame_skips_kernel() {
    // An area holding the kernel at its start: the first frame handed out is
    // the first one past the kernel image.
    let areas = vec![MemoryArea { base_addr: 0x100000, length: 0x100000 }];
    let mut a = allocator_over((0x100000, 0x108000), (0, 0), areas);
    let f = a.allocate_frame().expect("a frame must be free");
    assert_eq!(f, Frame::containing_address(0x108000));
    assert_eq!(f.start_address(), 0x108000);
}

#[test]
fn frames_ascend_and_never_repeat() {
    let areas = vec![MemoryArea { base_addr: 0x100000, length: 0x10000 }];
    let mut a = allocator_over((0x100000, 0x103000), (0x105000, 0x105800), areas);
    let mut got: Vec<u64> = Vec::new();
    loop {
        match a.allocate_frame() {
            Some(f) => got.push(f.start_address()),
            None => break,
        }
    }
    // 16 frames in the area; 3 kernel frames and 1 boot-information frame
    // are skipped.
    assert_eq!(got, vec![
        0x103000, 0x104000, 0x106000, 0x107000, 0x108000, 0x109000, 0x10a000, 0x10b000, 0x10c000,
        0x10d000, 0x10e000, 0x10f000,
    ]);
    for i in 0..got.len() {
        for j in 0..got.len() {
            if i != j {
                assert_ne!(got[i], got[j]);
            }
        }
        // Never a frame of the kernel image or the boot-information blob.
        assert!(got[i] + 0x1000 <= 0x100000 || got[i] >= 0x103000);
        assert!(got[i] + 0x1000 <= 0x105000 || got[i] >= 0x106000);
    }
}

#[test]
fn exhausted_allocator_returns_none() {
    // The only area is wholly inside the kernel image.
    let areas = vec![MemoryArea { base_addr: 0x100000, length: 0x2000 }];
    let mut a = allocator_over((0x100000, 0x108000), (0, 0), areas);
    assert_eq!(a.allocate_frame(), None);
}

#[test]
fn no_areas_means_no_frames() {
    let mut a = allocator_over((0, 0), (0, 0), Vec::new());
    assert_eq!(a.allocate_frame(), None);
}

#[test]
fn areas_are_taken_in_base_order() {
    // Two areas given out of order: the lower one is drained first.
    let areas = vec![
        MemoryArea { base_addr: 0x5000, length: 0x1000 },
        MemoryArea { base_addr: 0x2000, length: 0x1000 },
    ];
    let mut a = allocator_over((0, 0), (0, 0), areas);
    assert_eq!(a.allocate_frame(), Some(Frame::containing_address(0x2000)));
    assert_eq!(a.allocate_frame(), Some(Frame::containing_address(0x5000)));
    assert_eq!(a.allocate_frame(), None);
}

#[test]
fn deallocate_has_no_effect() {
    let areas = vec![MemoryArea { base_addr: 0x2000, length: 0x2000 }];
    let mut a = allocator_over((0, 0), (0, 0), areas);
    let f = a.allocate_frame().unwrap();
    assert_eq!(f.start_address(), 0x2000);
    a.deallocate_frame(f);
    // The frame is not reused: the allocator is strictly monotonic.
    assert_eq!(a.allocate_frame(), Some(Frame::containing_address(0x3000)));
    assert_eq!(a.allocate_frame(), None);
}

#[test]
fn partial_edge_frames_are_handed_out() {
    // An area not starting on a frame boundary begins at its containing
    // frame.
    let areas = vec![MemoryArea { base_addr: 0x2800, length: 0x1000 }];
    let mut a = allocator_over((0, 0), (0, 0), areas);
    assert_eq!(a.allocate_frame(), Some(Frame::containing_address(0x2000)));
    assert_eq!(a.allocate_frame(), Some(Frame::containing_address(0x3000)));
    assert_eq!(a.allocate_frame(), None);
}

#[test]
fn frame_range_walks_inclusively() {
    let mut iter = Frame::range_inclusive(
        Frame::containing_address(0x1000),
        Frame::containing_address(0x3000),
    );
    assert_eq!(iter.next(), Some(Frame::containing_address(0x1000)));
    assert_eq!(iter.next(), Some(Frame::containing_address(0x2000)));
    assert_eq!(iter.next(), Some(Frame::containing_address(0x3000)));
    assert_eq!(iter.next(), None);
    assert_eq!(iter.next(), None);
}

#[test]
fn kernel_bounds_span_the_sections() {
    let sections = vec![
        ElfSectionInfo {
            addr: 0x200000,
            size: 0x1000,
            allocated: true,
            writable: false,
            executable: true,
        },
        ElfSectionInfo {
            addr: 0x100000,
            size: 0x3000,
            allocated: true,
            writable: true,
            executable: false,
        },
    ];
    assert_eq!(kernel_bounds(&sections), Some((0x100000, 0x201000)));
    assert_eq!(kernel_bounds(&Vec::new()), None);
}

#[test]
fn frame_of_address() {
    assert_eq!(Frame::containing_address(0), Frame::containing_address(0xfff));
    assert_ne!(Frame::containing_address(0xfff), Frame::containing_address(0x1000));
    assert_eq!(Frame::containing_address(0x108123).start_address(), 0x108000);
}
