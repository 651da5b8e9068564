use lib::vfs::fat32::{boot_sector, first_fat_sector, format_fat32, Fat32Fs, FatDirEntry};
use lib::vfs::fat32_dir::SlotQuery;
use lib::vfs::inode::VfsError;

/// A freshly formatted volume, held in memory: boot sector, both FATs'
/// first sectors, and a zeroed root directory cluster.
fn fresh() -> (Fat32Fs, Vec<u8>) {
    let total = 65536u64;
    let bpb = format_fat32(total, "test").unwrap();
    let boot = boot_sector(&bpb);
    let fs = Fat32Fs::new(&boot).unwrap();
    let mut disk = vec![0u8; (fs.data_offset as usize + 300 * fs.bpb.sectors_per_cluster as usize) * 512];
    disk[..512].copy_from_slice(&boot);
    let fat0 = first_fat_sector(fs.bpb.media_type);
    for k in 0..fs.bpb.fat_count as usize {
        let s = (fs.fat_offset as usize + k * fs.bpb.sectors_per_fat_32 as usize) * 512;
        disk[s..s + 512].copy_from_slice(&fat0);
    }
    (fs, disk)
}

#[test]
fn dir_entry_bytes_round_trip() {
    let mut e = Fat32Fs::make_entry(*b"HELLO   ", *b"TXT", 0x20, 0x0012_3456, 99);
    e.write_time = 0x1234;
    let mut buf = [0xAAu8; 64];
    e.to_bytes(&mut buf, 32);
    assert!(buf[..32].iter().all(|b| *b == 0xAA));
    assert_eq!(&buf[32..40], b"HELLO   ");
    assert_eq!(buf[32 + 20], 0x12);
    assert_eq!(buf[32 + 26], 0x56);
    assert_eq!(buf[32 + 27], 0x34);
    let back = FatDirEntry::from_bytes(&buf, 32);
    assert_eq!(back.get_name(), "HELLO.TXT");
    assert_eq!(back.get_cluster(), 0x0012_3456);
    assert_eq!({ back.size }, 99);
    assert_eq!({ back.write_time }, 0x1234);
}

#[test]
fn create_dir_and_file_then_look_them_up() {
    let (fs, mut disk) = fresh();
    let root = fs.bpb.root_cluster;
    let test = fs.create_dir(&mut disk, root, "TEST").unwrap();
    assert_eq!(test, 3);
    assert_eq!(fs.lookup_in_dir(&disk, root, "TEST"), Ok(test));
    assert_eq!(fs.lookup_in_dir(&disk, root, "test"), Ok(test));
    assert_eq!(fs.create_dir(&mut disk, root, "test"), Err(VfsError::AlreadyExists));

    // "." and ".." open the new directory; ".." of a child of the root is 0.
    let lba = fs.cluster_to_lba(test) as usize;
    let dot = FatDirEntry::from_bytes(&disk, lba * 512);
    let dotdot = FatDirEntry::from_bytes(&disk, lba * 512 + 32);
    assert_eq!(dot.get_name(), ".");
    assert_eq!(dot.get_cluster(), test);
    assert!(dot.is_dir());
    assert_eq!(dotdot.get_name(), "..");
    assert_eq!(dotdot.get_cluster(), 0);

    let file = fs.create_file(&mut disk, test, "BOOT.CNT").unwrap();
    assert_eq!(file, 4);
    let (_, _, e) = fs.find_dir_entry(&disk, test, "boot.cnt").unwrap().unwrap();
    assert_eq!(e.get_name(), "BOOT.CNT");
    assert_eq!(e.get_cluster(), file);
    assert!(!e.is_dir());
    assert_eq!({ e.size }, 0);
    assert_eq!(fs.create_file(&mut disk, test, "boot.cnt"), Err(VfsError::AlreadyExists));
    assert_eq!(fs.create_file(&mut disk, test, "toolongname.txt"), Err(VfsError::InvalidArgument));
    assert_eq!(fs.create_file(&mut disk, test, "a+b"), Err(VfsError::InvalidArgument));
    assert_eq!(fs.lookup_in_dir(&disk, test, "MISSING"), Err(VfsError::NotFound));
}

#[test]
fn file_size_is_recorded_in_its_entry() {
    let (fs, mut disk) = fresh();
    let root = fs.bpb.root_cluster;
    let file = fs.create_file(&mut disk, root, "COUNT").unwrap();
    let (head, n) = fs.write_chain(&mut disk, file, 0, b"42").unwrap();
    assert_eq!((head, n), (file, 2));
    fs.update_dir_entry_size(&mut disk, root, file, n as u32).unwrap();
    let (_, _, e) = fs.find_dir_entry(&disk, root, "count").unwrap().unwrap();
    assert_eq!({ e.size }, 2);
    let mut back = [0u8; 2];
    assert_eq!(fs.read_chain(&disk, e.get_cluster(), 0, &mut back), Ok(2));
    assert_eq!(&back, b"42");
    // No entry with that cluster: nothing changes.
    let before = disk.clone();
    assert_eq!(fs.update_dir_entry_size(&mut disk, root, 77, 5), Ok(()));
    assert!(disk == before);
}

#[test]
fn update_dir_entry_cluster_repoints_an_entry() {
    let (fs, mut disk) = fresh();
    let root = fs.bpb.root_cluster;
    fs.create_file(&mut disk, root, "DATA.BIN").unwrap();
    assert_eq!(fs.update_dir_entry_cluster(&mut disk, root, "data.bin", 0x0001_0009, 1234), Ok(()));
    let (_, _, e) = fs.find_dir_entry(&disk, root, "DATA.BIN").unwrap().unwrap();
    assert_eq!(e.get_cluster(), 0x0001_0009);
    assert_eq!({ e.size }, 1234);
    assert_eq!(fs.update_dir_entry_cluster(&mut disk, root, "nope", 5, 5), Ok(()));
}

#[test]
fn unlink_removes_files_and_empty_dirs_only() {
    let (fs, mut disk) = fresh();
    let root = fs.bpb.root_cluster;
    let dir = fs.create_dir(&mut disk, root, "D").unwrap();
    let file = fs.create_file(&mut disk, dir, "F.TXT").unwrap();
    assert_eq!(fs.unlink(&mut disk, root, "D"), Err(VfsError::IsADirectory));
    assert_eq!(fs.unlink(&mut disk, dir, "nothere"), Err(VfsError::NotFound));
    assert_eq!(fs.unlink(&mut disk, dir, "f.txt"), Ok(()));
    assert_eq!(fs.lookup_in_dir(&disk, dir, "F.TXT"), Err(VfsError::NotFound));
    assert_eq!(fs.next_cluster(&disk, file), Ok(0));
    assert_eq!(fs.unlink(&mut disk, root, "d"), Ok(()));
    assert_eq!(fs.lookup_in_dir(&disk, root, "D"), Err(VfsError::NotFound));
    assert_eq!(fs.next_cluster(&disk, dir), Ok(0));
    // The freed cluster is handed out again.
    assert_eq!(fs.create_file(&mut disk, root, "AGAIN"), Ok(dir));
}

#[test]
fn free_chain_frees_every_link() {
    let (fs, mut disk) = fresh();
    let root = fs.bpb.root_cluster;
    let file = fs.create_file(&mut disk, root, "BIG").unwrap();
    let data = vec![7u8; 3 * fs.cluster_size as usize];
    fs.write_chain(&mut disk, file, 0, &data).unwrap();
    let second = fs.next_cluster(&disk, file).unwrap();
    let third = fs.next_cluster(&disk, second).unwrap();
    assert_eq!(fs.next_cluster(&disk, third), Ok(0x0FFF_FFFF));
    assert_eq!(fs.free_chain(&mut disk, file), Ok(()));
    assert_eq!(fs.next_cluster(&disk, file), Ok(0));
    assert_eq!(fs.next_cluster(&disk, second), Ok(0));
    assert_eq!(fs.next_cluster(&disk, third), Ok(0));
    let before = disk.clone();
    assert_eq!(fs.free_chain(&mut disk, 1), Ok(()));
    assert_eq!(fs.free_chain(&mut disk, 0x0FFF_FFF8), Ok(()));
    assert!(disk == before);
}

#[test]
fn directory_grows_by_a_cluster_when_full() {
    let (fs, mut disk) = fresh();
    let root = fs.bpb.root_cluster;
    let slots = 16 * fs.bpb.sectors_per_cluster as usize;
    for i in 0..slots {
        let name = format!("F{}", i);
        fs.create_file(&mut disk, root, &name).unwrap();
    }
    assert_eq!(fs.next_cluster(&disk, root), Ok(0x0FFF_FFFF));
    let (lba, slot) = fs.find_or_alloc_dir_slot(&mut disk, root).unwrap();
    let grown = fs.next_cluster(&disk, root).unwrap();
    assert!(grown >= 2 && grown < 0x0FFF_FFF8);
    assert_eq!(lba, fs.cluster_to_lba(grown));
    assert_eq!(slot, 0);
    let last = fs.create_file(&mut disk, root, "LAST").unwrap();
    assert_eq!(fs.lookup_in_dir(&disk, root, "last"), Ok(last));
    assert_eq!(fs.lookup_in_dir(&disk, root, "F0"), Ok(3));
}

#[test]
fn walk_finds_occupied_entries() {
    let (fs, mut disk) = fresh();
    let root = fs.bpb.root_cluster;
    let dir = fs.create_dir(&mut disk, root, "SUB").unwrap();
    assert!(matches!(fs.for_each_dir_slot(&disk, dir, &SlotQuery::Occupied), Ok(None)));
    let f = fs.create_file(&mut disk, dir, "X").unwrap();
    let hit = fs.for_each_dir_slot(&disk, dir, &SlotQuery::Occupied).unwrap().unwrap();
    assert_eq!(hit.1, 2);
    assert_eq!(hit.2.get_cluster(), f);
    let by_cluster = fs.for_each_dir_slot(&disk, dir, &SlotQuery::Cluster(f)).unwrap().unwrap();
    assert_eq!(by_cluster.2.get_name(), "X");
}

#[test]
fn split_parent_leaf_walks_to_the_parent() {
    let (fs, mut disk) = fresh();
    let root = fs.bpb.root_cluster;
    let test = fs.create_dir(&mut disk, root, "TEST").unwrap();
    assert_eq!(fs.split_parent_leaf(&disk, "/TEST/BOOT.CNT"), Ok((test, "BOOT.CNT")));
    assert_eq!(fs.split_parent_leaf(&disk, "NEW"), Ok((root, "NEW")));
    assert_eq!(fs.split_parent_leaf(&disk, "//test//x/"), Ok((test, "x")));
    assert_eq!(fs.split_parent_leaf(&disk, "/"), Err(VfsError::InvalidArgument));
    assert_eq!(fs.split_parent_leaf(&disk, "/NOPE/x"), Err(VfsError::NotFound));
}

#[test]
fn reads_past_the_device_fail() {
    let (fs, disk) = fresh();
    let root = fs.bpb.root_cluster;
    let short = disk[..fs.data_offset as usize * 512].to_vec();
    assert_eq!(fs.lookup_in_dir(&short, root, "X"), Err(VfsError::IoError));
}
