//! The raw 64-bit hardware page-table-entry encoding: a physical frame number
//! packed together with a permission/attribute bitset.

use vstd::prelude::*;
use crate::memory::Frame;

verus! {

/// The entry is mapped and usable.
pub const PRESENT: u64 = 0x1;
/// Writes through this mapping are allowed.
pub const WRITABLE: u64 = 0x2;
/// User-mode code may use this mapping.
pub const USER_ACCESSIBLE: u64 = 0x4;
/// Writes go directly to memory.
pub const WRITE_THROUGH: u64 = 0x8;
/// No cache is used for this mapping.
pub const NO_CACHE: u64 = 0x10;
/// The CPU saw an access through this mapping.
pub const ACCESSED: u64 = 0x20;
/// The CPU saw a write through this mapping.
pub const DIRTY: u64 = 0x40;
/// The entry maps a 1 GiB or 2 MiB region directly instead of a child table.
pub const HUGE_PAGE: u64 = 0x80;
/// The mapping survives an address-space switch.
pub const GLOBAL: u64 = 0x100;
/// No instruction fetch through this mapping (top bit of the entry).
pub const NO_EXECUTE: u64 = 0x8000_0000_0000_0000;

/// All attribute bits an entry may carry.
pub const ALL_FLAGS: u64 = 0x8000_0000_0000_01ff;

/// Bits 12 to 51 of an entry hold the physical address of the target frame.
pub const ADDRESS_MASK: u64 = 0x000f_ffff_ffff_f000;

/// A permission/attribute bitset over the flag bits of a page-table entry.
#[derive(Debug, Clone, Copy, PartialEq, Eq, Structural)]
pub struct EntryFlags {
    pub bits: u64,
}

/// True when `bits` holds only known flag bits.
pub open spec fn flags_wf(bits: u64) -> bool {
    bits & ALL_FLAGS == bits
}

impl EntryFlags {
    /// The empty bitset.
    pub fn empty() -> (r: EntryFlags)
        ensures
            r.bits == 0,
            flags_wf(r.bits),
    {
        proof {
            assert(0u64 & ALL_FLAGS == 0) by (bit_vector);
        }
        EntryFlags { bits: 0 }
    }

    /// The bitset holding exactly the known flag bits of `bits`.
    pub fn from_bits_truncate(bits: u64) -> (r: EntryFlags)
        ensures
            r.bits == bits & ALL_FLAGS,
            flags_wf(r.bits),
    {
        proof {
            assert((bits & 0x8000_0000_0000_01ffu64) & 0x8000_0000_0000_01ffu64 == (bits
                & 0x8000_0000_0000_01ffu64)) by (bit_vector);
        }
        EntryFlags { bits: bits & ALL_FLAGS }
    }

    /// The raw bits of the set.
    pub fn bits(&self) -> (r: u64)
        ensures
            r == self.bits,
    {
        self.bits
    }

    /// True when every flag of `other` is set in `self`.
    pub open spec fn spec_contains(&self, other: EntryFlags) -> bool {
        self.bits & other.bits == other.bits
    }

    #[verifier::when_used_as_spec(spec_contains)]
    pub fn contains(&self, other: EntryFlags) -> (r: bool)
        ensures
            r == self.spec_contains(other),
    {
        self.bits & other.bits == other.bits
    }

    /// The union of the two bitsets.
    pub fn union_with(&self, other: EntryFlags) -> (r: EntryFlags)
        ensures
            r.bits == self.bits | other.bits,
            flags_wf(self.bits) && flags_wf(other.bits) ==> flags_wf(r.bits),
    {
        proof {
            let a = self.bits;
            let b = other.bits;
            assert(a & 0x8000_0000_0000_01ffu64 == a && b & 0x8000_0000_0000_01ffu64 == b ==> (a
                | b) & 0x8000_0000_0000_01ffu64 == (a | b)) by (bit_vector);
        }
        EntryFlags { bits: self.bits | other.bits }
    }
}

/// What the kernel reads of one loaded ELF section: its placement and its
/// permission bits (the usual allocated / writable / executable section flags).
#[derive(Debug, Clone, Copy, PartialEq, Eq, Structural)]
pub struct ElfSectionInfo {
    /// First byte address of the section.
    pub addr: u64,
    /// Size of the section in bytes.
    pub size: u64,
    /// The section occupies memory at runtime.
    pub allocated: bool,
    /// The section is writable at runtime.
    pub writable: bool,
    /// The section holds executable code.
    pub executable: bool,
}

/// The entry flags a loaded section's mapping must carry: present when the
/// section occupies memory, writable when it is writable, and no-execute
/// unless it holds code.
pub open spec fn spec_section_flags(section: ElfSectionInfo) -> u64 {
    (if section.allocated {
        PRESENT
    } else {
        0
    }) | (if section.writable {
        WRITABLE
    } else {
        0
    }) | (if section.executable {
        0
    } else {
        NO_EXECUTE
    })
}

impl EntryFlags {
    /// Derives hardware protection bits from a section's ELF attributes; the
    /// only place permission policy is decided.
    pub fn from_elf_section_flags(section: &ElfSectionInfo) -> (r: EntryFlags)
        ensures
            r.bits == spec_section_flags(*section),
            flags_wf(r.bits),
            r.contains(EntryFlags { bits: PRESENT }) <==> section.allocated,
            r.contains(EntryFlags { bits: WRITABLE }) <==> section.writable,
            r.contains(EntryFlags { bits: NO_EXECUTE }) <==> !section.executable,
    {
        let mut flags = EntryFlags::empty();
        flags = flags.union_with(
            EntryFlags {
                bits: if section.allocated {
                    PRESENT
                } else {
                    0
                },
            },
        );
        flags = flags.union_with(
            EntryFlags {
                bits: if section.writable {
                    WRITABLE
                } else {
                    0
                },
            },
        );
        flags = flags.union_with(
            EntryFlags {
                bits: if section.executable {
                    0
                } else {
                    NO_EXECUTE
                },
            },
        );
        proof {
            let p: u64 = if section.allocated {
                PRESENT
            } else {
                0
            };
            let w: u64 = if section.writable {
                WRITABLE
            } else {
                0
            };
            let n: u64 = if section.executable {
                0
            } else {
                NO_EXECUTE
            };
            assert((((0u64 | p) | w) | n) == ((p | w) | n)) by (bit_vector);
            lemma_section_flag_bits(*section, flags.bits);
        }
        flags
    }
}

proof fn lemma_section_flag_bits(section: ElfSectionInfo, b: u64)
    requires
        b == spec_section_flags(section),
    ensures
        b & PRESENT == PRESENT <==> section.allocated,
        b & WRITABLE == WRITABLE <==> section.writable,
        b & NO_EXECUTE == NO_EXECUTE <==> !section.executable,
        flags_wf(b),
{
    let p: u64 = if section.allocated {
        1
    } else {
        0
    };
    let w: u64 = if section.writable {
        2
    } else {
        0
    };
    let n: u64 = if section.executable {
        0
    } else {
        0x8000_0000_0000_0000
    };
    assert((p == 0 || p == 1) && (w == 0 || w == 2) && (n == 0 || n == 0x8000_0000_0000_0000)
        ==> (((p | w | n) & 1u64 == 1u64 <==> p == 1) && ((p | w | n) & 2u64 == 2u64 <==> w == 2)
        && ((p | w | n) & 0x8000_0000_0000_0000u64 == 0x8000_0000_0000_0000u64 <==> n
        == 0x8000_0000_0000_0000) && ((p | w | n) & 0x8000_0000_0000_01ffu64 == (p | w | n))))
        by (bit_vector);
}

/// True when the raw entry has the given flag bit set.
pub open spec fn flag_set(value: u64, flag: u64) -> bool {
    value & flag == flag
}

/// The frame number stored in bits 12 to 51 of the raw entry.
pub open spec fn spec_frame_number(value: u64) -> u64 {
    (value & ADDRESS_MASK) / 4096
}

/// A cleared entry carries no flag: neither PRESENT nor HUGE_PAGE.
pub proof fn lemma_zero_entry_bits()
    ensures
        !flag_set(0, PRESENT),
        !flag_set(0, HUGE_PAGE),
{
    assert(0u64 & 1u64 != 1u64 && 0u64 & 0x80u64 != 0x80u64) by (bit_vector);
}

/// One raw 64-bit page-table entry.
#[derive(Debug, Clone, Copy, PartialEq, Eq, Structural)]
pub struct Entry {
    pub value: u64,
}

impl Entry {
    /// A cleared entry.
    pub fn new() -> (r: Entry)
        ensures
            r.value == 0,
    {
        Entry { value: 0 }
    }

    /// True when nothing is stored here at all.
    pub fn is_unused(&self) -> (r: bool)
        ensures
            r == (self.value == 0),
    {
        self.value == 0
    }

    /// Clears the entry.
    pub fn set_unused(&mut self)
        ensures
            final(self).value == 0,
    {
        self.value = 0;
    }

    /// The attribute bits stored in the entry.
    pub fn flags(&self) -> (r: EntryFlags)
        ensures
            r.bits == self.value & ALL_FLAGS,
            flags_wf(r.bits),
    {
        EntryFlags::from_bits_truncate(self.value)
    }

    /// The frame this entry points at, meaningful only when PRESENT is set;
    /// without PRESENT the address bits are garbage by hardware convention.
    pub fn pointed_frame(&self) -> (r: Option<Frame>)
        ensures
            r == if flag_set(self.value, PRESENT) {
                Some(Frame { number: spec_frame_number(self.value) })
            } else {
                None::<Frame>
            },
    {
        if self.flags().contains(EntryFlags { bits: PRESENT }) {
            proof {
                let v = self.value;
                assert((v & 0x8000_0000_0000_01ffu64) & 1u64 == 1u64 <==> v & 1u64 == 1u64)
                    by (bit_vector);
                assert((v & 0x000f_ffff_ffff_f000u64) / 4096u64 <= 0x000f_ffff_ffff_f000u64
                    / 4096u64) by (bit_vector);
            }
            Some(Frame::containing_address(self.value & ADDRESS_MASK))
        } else {
            proof {
                let v = self.value;
                assert((v & 0x8000_0000_0000_01ffu64) & 1u64 == 1u64 <==> v & 1u64 == 1u64)
                    by (bit_vector);
            }
            None
        }
    }

    /// Stores `frame` with `flags`; the frame address must fit the 52-bit
    /// physical address range and `flags` must hold only flag bits.
    pub fn set(&mut self, frame: Frame, flags: EntryFlags)
        requires
            frame.number < 0x100_0000_0000,
            flags_wf(flags.bits),
        ensures
            final(self).value == ((frame.number * 4096) as u64) | flags.bits,
            spec_frame_number(final(self).value) == frame.number,
            final(self).value & ALL_FLAGS == flags.bits,
    {
        proof {
            let n = frame.number;
            let b = flags.bits;
            assert(n < 0x100_0000_0000u64 && b & 0x8000_0000_0000_01ffu64 == b ==> ((((n
                * 4096) as u64) | b) & 0x000f_ffff_ffff_f000u64) / 4096u64 == n && ((((n
                * 4096) as u64) | b) & 0x8000_0000_0000_01ffu64) == b) by (bit_vector);
        }
        self.value = frame.start_address() | flags.bits;
    }
}

} // verus!
