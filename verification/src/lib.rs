//! Virtual-memory bootstrap core of a small 64-bit kernel: a physical-frame
//! allocator and a four-level page-table model with verified translate / map /
//! unmap, plus the pure decision logic of the kernel's device drivers.

pub mod fat;
pub mod io;
pub mod memory;
pub mod vga_buffer;
