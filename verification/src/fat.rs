//! FAT boot-sector parsing and root-directory walking, over sectors already
//! read into memory; reading the sectors off the disk is the driver's part.

use vstd::prelude::*;
use crate::io::membuffer::{spec_le16, MemBuffer};

verus! {

/// The file-system family a boot sector describes.
#[derive(Debug, Clone, Copy, PartialEq, Eq, Structural)]
pub enum FSType {
    /// Not a FAT size this code handles.
    Unsupported,
    /// FAT with 12-bit entries.
    Fat12,
    /// FAT with 16-bit entries.
    Fat16,
}

/// Bytes per sector, read from the boot sector.
pub open spec fn spec_sector_length(b: Seq<u8>) -> u16 {
    spec_le16(b, 11)
}

/// Sectors per cluster, read from the boot sector.
pub open spec fn spec_sectors_per_cluster(b: Seq<u8>) -> u16 {
    b[13] as u16
}

/// Reserved sectors before the first FAT, read from the boot sector.
pub open spec fn spec_num_reserved_sectors(b: Seq<u8>) -> u16 {
    spec_le16(b, 14)
}

/// Number of FATs, read from the boot sector.
pub open spec fn spec_num_fats(b: Seq<u8>) -> u16 {
    b[16] as u16
}

/// Root-directory entry count, read from the boot sector.
pub open spec fn spec_root_entry_count(b: Seq<u8>) -> u16 {
    spec_le16(b, 17)
}

/// Total sector count, read from the boot sector.
pub open spec fn spec_total_sectors(b: Seq<u8>) -> u16 {
    spec_le16(b, 19)
}

/// Sectors per FAT, read from the boot sector.
pub open spec fn spec_fat_size(b: Seq<u8>) -> u16 {
    spec_le16(b, 22)
}

/// Sectors taken by the root directory: its 32-byte entries, rounded up to
/// whole sectors.
pub open spec fn spec_num_root_dir_sectors(b: Seq<u8>) -> int {
    (spec_root_entry_count(b) * 32 + (spec_sector_length(b) - 1)) / spec_sector_length(b) as int
}

/// Clusters in the data region: what remains after the reserved sectors, the
/// FATs and the root directory, divided into clusters.
pub open spec fn spec_total_clusters(b: Seq<u8>) -> int {
    (spec_total_sectors(b) - (spec_num_reserved_sectors(b) + spec_num_fats(b) * spec_fat_size(b)
        + spec_num_root_dir_sectors(b))) / spec_sectors_per_cluster(b) as int
}

/// The family the cluster count places the volume in. The gap between 4086
/// and 4095 clusters is deliberately unsupported.
pub open spec fn spec_fs_type(b: Seq<u8>) -> FSType {
    let tc = spec_total_clusters(b);
    if 0 <= tc <= 4085 {
        FSType::Fat12
    } else if 4096 <= tc <= 65525 {
        FSType::Fat16
    } else {
        FSType::Unsupported
    }
}

/// The boot sector holds values this parser's 16-bit arithmetic can take:
/// nonzero divisors and no overflowing intermediate sums.
pub open spec fn boot_sector_parsable(b: Seq<u8>) -> bool {
    &&& spec_sector_length(b) > 0
    &&& spec_sectors_per_cluster(b) > 0
    &&& spec_root_entry_count(b) * 32 + (spec_sector_length(b) - 1) <= 0xffff
    &&& spec_num_fats(b) * spec_fat_size(b) <= 0xffff
    &&& spec_num_reserved_sectors(b) + spec_num_fats(b) * spec_fat_size(b)
        + spec_num_root_dir_sectors(b) <= spec_total_sectors(b)
}

/// A parsed FAT volume: its family and where its FAT and root directory
/// start.
#[derive(Debug, Clone, Copy, PartialEq, Eq, Structural)]
pub struct FatFS {
    /// The file-system family.
    pub fs_type: FSType,
    /// First sector of the FAT.
    pub fat_sector: u16,
    /// First sector of the root directory.
    pub root_dir_sector: u16,
}

impl FatFS {
    /// Reads the volume's shape out of its boot sector (sector zero of the
    /// disk).
    pub fn init_fs(boot_sector: &MemBuffer) -> (r: FatFS)
        requires
            boot_sector.wf(),
            boot_sector_parsable(boot_sector.buffer@),
        ensures
            r.fs_type == spec_fs_type(boot_sector.buffer@),
            r.fat_sector == spec_num_reserved_sectors(boot_sector.buffer@),
            r.root_dir_sector == spec_num_reserved_sectors(boot_sector.buffer@) + spec_num_fats(
                boot_sector.buffer@,
            ) * spec_fat_size(boot_sector.buffer@),
    {
        let sector_length = boot_sector.get_u16(11);
        let sectors_per_cluster = boot_sector.get_u8(13) as u16;
        let num_reserved_sectors = boot_sector.get_u16(14);
        let num_fats = boot_sector.get_u8(16) as u16;
        let root_entry_count = boot_sector.get_u16(17);
        let total_sectors = boot_sector.get_u16(19);
        let fat_size = boot_sector.get_u16(22);

        let num_root_dir_sectors = ((root_entry_count * 32) + (sector_length - 1)) / sector_length;
        let data_sectors = total_sectors - (num_reserved_sectors + (num_fats * fat_size)
            + num_root_dir_sectors);
        let total_clusters = data_sectors / sectors_per_cluster;

        FatFS {
            fs_type: if total_clusters <= 4085 {
                FSType::Fat12
            } else if 4096 <= total_clusters && total_clusters <= 65525 {
                FSType::Fat16
            } else {
                FSType::Unsupported
            },
            fat_sector: num_reserved_sectors,
            root_dir_sector: num_reserved_sectors + (num_fats * fat_size),
        }
    }

    /// Starts walking a root directory whose first sector (the one at
    /// `root_dir_sector`) has been read into `root_dir`.
    pub fn list_directory(&self, root_dir: MemBuffer) -> (r: DirectoryIterator)
        requires
            root_dir.wf(),
        ensures
            r.buffer == root_dir,
            r.entry_idx == 0,
    {
        DirectoryIterator { buffer: root_dir, entry_idx: 0 }
    }
}

/// One directory entry: the 11 bytes of its 8.3 name.
pub struct DirectoryEntry {
    /// The raw name bytes.
    pub name: Vec<u8>,
}

/// Walks the 32-byte entries of a directory sector until the terminating
/// zero entry.
pub struct DirectoryIterator {
    /// The directory sector.
    pub buffer: MemBuffer,
    /// Byte offset of the next entry.
    pub entry_idx: usize,
}

impl DirectoryIterator {
    /// The iterator sits on a 32-byte entry boundary of its sector.
    pub open spec fn wf(&self) -> bool {
        &&& self.buffer.wf()
        &&& self.entry_idx % 32 == 0
        &&& self.entry_idx <= 512
    }

    /// Copies the first 11 bytes of an entry's name field.
    fn get_name(name: &[u8]) -> (r: Vec<u8>)
        requires
            name@.len() >= 11,
        ensures
            r@ == name@.subrange(0, 11),
    {
        let mut arr: Vec<u8> = Vec::new();
        let mut i: usize = 0;
        while i < 11
            invariant
                i <= 11,
                name@.len() >= 11,
                arr@ == name@.subrange(0, i as int),
            decreases 11 - i,
        {
            let b = name[i];
            arr.push(b);
            proof {
                assert(arr@ =~= name@.subrange(0, i as int + 1));
            }
            i = i + 1;
        }
        arr
    }

    /// The next directory entry, or `None` at the terminating zero entry.
    pub fn next(&mut self) -> (r: Option<DirectoryEntry>)
        requires
            old(self).wf(),
            old(self).entry_idx < 512,
        ensures
            final(self).wf(),
            final(self).buffer == old(self).buffer,
            if old(self).buffer.buffer@[old(self).entry_idx as int] == 0 {
                &&& r is None
                &&& final(self).entry_idx == old(self).entry_idx
            } else {
                &&& final(self).entry_idx == old(self).entry_idx + 32
                &&& (r matches Some(e) && e.name@ == old(self).buffer.buffer@.subrange(
                    old(self).entry_idx as int,
                    old(self).entry_idx as int + 11,
                ))
            },
    {
        let entry_type = self.buffer.get_u8(self.entry_idx);
        if entry_type == 0 {
            return None;
        }
        let name = self.buffer.get_slice(self.entry_idx, 11);
        let name_bytes = DirectoryIterator::get_name(name);
        proof {
            assert(name_bytes@ =~= self.buffer.buffer@.subrange(
                self.entry_idx as int,
                self.entry_idx as int + 11,
            ));
        }
        self.entry_idx = self.entry_idx + 32;
        Some(DirectoryEntry { name: name_bytes })
    }
}

} // verus!
