//! The pure decision and data logic of the kernel's device drivers: what can
//! be computed from plain values, with the port I/O itself kept outside.

pub mod ide_disk;
pub mod keyboard;
pub mod membuffer;
pub mod pci;
