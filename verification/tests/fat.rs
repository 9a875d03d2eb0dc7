//! FAT boot-sector parsing and directory walking on crafted sectors.

use parkos::fat::{FSType, FatFS};
use parkos::io::membuffer::MemBuffer;

/// A boot sector with the given geometry words.
fn boot_sector(
    sector_length: u16,
    sectors_per_cluster: u8,
    reserved: u16,
    num_fats: u8,
    root_entries: u16,
    total_sectors: u16,
    fat_size: u16,
) -> MemBuffer {
    let mut b = MemBuffer::new();
    b.set_u16(11, sector_length);
    b.set_u16(13, sectors_per_cluster as u16);
    b.set_u16(14, reserved);
    b.set_u16(16, num_fats as u16);
    b.set_u16(17, root_entries);
    b.set_u16(19, total_sectors);
    b.set_u16(22, fat_size);
    b
}

#[test]
fn small_volume_is_fat12() {
    // 512-byte sectors, 1 sector per cluster, 1 reserved, 2 FATs of 2
    // sectors, 16 root entries (1 sector): 4090 data sectors of the 4096
    // total, 4090 clusters... that would be FAT16 range; pick totals for
    // FAT12: 4000 total sectors leaves 3994 clusters. Use 4 sectors per
    // cluster instead: 998 clusters.
    let b = boot_sector(512, 4, 1, 2, 16, 4000, 2);
    let fs = FatFS::init_fs(&b);
    assert!(matches!(fs.fs_type, FSType::Fat12));
    assert_eq!(fs.fat_sector, 1);
    assert_eq!(fs.root_dir_sector, 5);
}

#[test]
fn larger_volume_is_fat16() {
    // 1 sector per cluster, 16000 total sectors: 15994 clusters.
    let b = boot_sector(512, 1, 1, 2, 32, 16000, 2);
    let fs = FatFS::init_fs(&b);
    assert!(matches!(fs.fs_type, FSType::Fat16));
    assert_eq!(fs.fat_sector, 1);
    assert_eq!(fs.root_dir_sector, 5);
}

#[test]
fn the_gap_between_families_is_unsupported() {
    // Exactly 4090 clusters falls in the deliberately unsupported gap
    // between 4085 and 4096.
    let b = boot_sector(512, 1, 1, 2, 16, 4096, 2);
    let fs = FatFS::init_fs(&b);
    assert!(matches!(fs.fs_type, FSType::Unsupported));
}

#[test]
fn directory_walk_stops_at_the_zero_entry() {
    let mut sector = MemBuffer::new();
    // Two 32-byte entries, then a terminating zero entry.
    let names: [&[u8; 11]; 2] = [b"HELLO   TXT", b"WORLD   BIN"];
    for (i, name) in names.iter().enumerate() {
        for (j, c) in name.iter().enumerate() {
            sector.set_u16(i * 32 + j, *c as u16);
        }
    }
    let fs = FatFS { fs_type: FSType::Fat12, fat_sector: 1, root_dir_sector: 5 };
    let mut iter = fs.list_directory(sector);
    let first = iter.next().expect("first entry");
    assert_eq!(first.name, b"HELLO   TXT".to_vec());
    let second = iter.next().expect("second entry");
    assert_eq!(second.name, b"WORLD   BIN".to_vec());
    assert!(iter.next().is_none());
    assert_eq!(iter.entry_idx, 64);
}
