use lib::vfs::fat32::{
    ascii_upper, boot_sector, encode_short_name, first_fat_sector, format_fat32, fsinfo_sector,
    is_legal_short_char, merge_fat_entry, BpbFat32, Fat32Fs, FatDirEntry, FAT_ENTRY_EOC,
};
use lib::vfs::inode::VfsError;

fn entry(name: &[u8; 8], ext: &[u8; 3], attr: u8) -> FatDirEntry {
    FatDirEntry {
        name: *name, ext: *ext, attr, nt_reserved: 0, creation_time_tenths: 0, creation_time: 0,
        creation_date: 0, last_access_date: 0, first_cluster_high: 0, write_time: 0, write_date: 0,
        first_cluster_low: 0, size: 0,
    }
}

#[test]
fn short_names() {
    let (n, e) = encode_short_name("readme.txt").unwrap();
    assert_eq!(&n, b"README  ");
    assert_eq!(&e, b"TXT");
    let (n, e) = encode_short_name("kernel").unwrap();
    assert_eq!(&n, b"KERNEL  ");
    assert_eq!(&e, b"   ");
    assert_eq!(encode_short_name("a.b.c"), Err(VfsError::InvalidArgument));
    assert_eq!(encode_short_name(""), Err(VfsError::InvalidArgument));
    assert_eq!(encode_short_name(".."), Err(VfsError::InvalidArgument));
    assert_eq!(encode_short_name("toolongname.txt"), Err(VfsError::InvalidArgument));
    assert_eq!(encode_short_name("file.text"), Err(VfsError::InvalidArgument));
    assert_eq!(encode_short_name("sp ace"), Err(VfsError::InvalidArgument));
    assert_eq!(encode_short_name(".hidden"), Err(VfsError::InvalidArgument));
    assert!(is_legal_short_char(b'~'));
    assert!(!is_legal_short_char(b'+'));
    assert_eq!(ascii_upper(b'q'), b'Q');
    assert_eq!(ascii_upper(b'7'), b'7');
}

#[test]
fn entry_names_and_flags() {
    let e = entry(b"README  ", b"TXT", 0x20);
    assert_eq!(e.get_name(), "README.TXT");
    let d = entry(b"SUBDIR  ", b"   ", 0x10);
    assert_eq!(d.get_name(), "SUBDIR");
    assert!(d.is_dir());
    assert!(!e.is_dir());
    let lfn = entry(b"A       ", b"   ", 0x0F);
    assert!(lfn.is_lfn() && lfn.is_volume());
    let mut gone = e;
    gone.name[0] = 0xE5;
    assert!(gone.is_deleted());
    gone.name[0] = 0;
    assert!(gone.is_end());
}

#[test]
fn cluster_halves() {
    let mut e = entry(b"X       ", b"   ", 0);
    e.set_cluster(0x0012_3456);
    assert_eq!(e.first_cluster_high, 0x0012);
    assert_eq!(e.first_cluster_low, 0x3456);
    assert_eq!(e.get_cluster(), 0x0012_3456);
}

#[test]
fn fat_entries_keep_top_bits() {
    assert_eq!(merge_fat_entry(0xA000_0005, 0x0FFF_FFFF), 0xAFFF_FFFF);
    assert_eq!(merge_fat_entry(0x1234_5678, 0xF000_0009), 0x1000_0009);
}

#[test]
fn format_then_mount() {
    assert_eq!(format_fat32(255, "x").unwrap_err(), VfsError::NoSpace);
    let bpb = format_fat32(65536, "racos disk 1").unwrap();
    assert_eq!(bpb.sectors_per_fat_32, 512);
    assert_eq!(&bpb.vol_label, b"RACOS DISK ");
    let boot = boot_sector(&bpb);
    assert_eq!(boot[510], 0x55);
    assert_eq!(boot[511], 0xAA);
    let fs = Fat32Fs::new(&boot).unwrap();
    assert_eq!(fs.fat_offset, 32);
    assert_eq!(fs.data_offset, 32 + 512);
    assert_eq!(fs.cluster_size, 512);
    assert_eq!(fs.total_clusters, 65536 - 544);
    assert!((fs.total_clusters as u64 + 2) * 4 <= 512 * 512);
    assert_eq!(fs.cluster_to_lba(2), 544);
    assert_eq!(fs.fat_entry_location(130), (33, 8));
    let back = BpbFat32::from_bytes(&boot);
    assert_eq!(back.serial_number, 0x5241_4332);
    let mut bad = boot;
    bad[66] = 0;
    assert_eq!(Fat32Fs::new(&bad).err(), Some(VfsError::InvalidArgument));
    let info = fsinfo_sector();
    assert_eq!(&info[0..4], &0x4161_5252u32.to_le_bytes());
    let fat = first_fat_sector(0xF8);
    assert_eq!(&fat[4..8], &FAT_ENTRY_EOC.to_le_bytes());
    assert_eq!(&fat[0..4], &0x0FFF_FFF8u32.to_le_bytes());
}

#[test]
fn format_caps_the_sector_count_of_huge_devices() {
    let bpb = format_fat32((1u64 << 32) + 300, "big").unwrap();
    assert_eq!(bpb.total_sectors_32, u32::MAX);
    assert_eq!(bpb.sectors_per_fat_32, 3);
    let bpb = format_fat32(1u64 << 33, "big").unwrap();
    assert_eq!(bpb.total_sectors_32, u32::MAX);
    assert_eq!(bpb.sectors_per_fat_32, 1 << 25);
    let exact = format_fat32(u32::MAX as u64, "big").unwrap();
    assert_eq!(exact.total_sectors_32, u32::MAX);
}
