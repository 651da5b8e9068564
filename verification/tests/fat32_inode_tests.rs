use lib::vfs::fat32::{boot_sector, first_fat_sector, format_fat32, Fat32Fs};
use lib::vfs::fat32_inode::{FatCaches, FatInode, Fat32Filesystem};
use lib::vfs::inode::{FileType, InodeMetadata, VfsError};

fn fresh() -> (Fat32Fs, Vec<u8>) {
    let bpb = format_fat32(65536, "test").unwrap();
    let boot = boot_sector(&bpb);
    let fs = Fat32Fs::new(&boot).unwrap();
    let mut disk = vec![0u8; (fs.data_offset as usize + 64 * fs.bpb.sectors_per_cluster as usize) * 512];
    disk[..512].copy_from_slice(&boot);
    let fat0 = first_fat_sector(fs.bpb.media_type);
    for k in 0..fs.bpb.fat_count as usize {
        let s = (fs.fat_offset as usize + k * fs.bpb.sectors_per_fat_32 as usize) * 512;
        disk[s..s + 512].copy_from_slice(&fat0);
    }
    (fs, disk)
}

#[test]
fn caches_replace_or_append() {
    let mut c = FatCaches::new();
    assert_eq!(c.cached_size(5), None);
    c.set_cached_size(5, 10);
    c.set_cached_size(6, 20);
    c.set_cached_size(5, 11);
    assert_eq!(c.cached_size(5), Some(11));
    assert_eq!(c.cached_size(6), Some(20));
    assert_eq!(c.sizes.len(), 2);
    let m = InodeMetadata::new(9, FileType::Regular);
    c.cache_metadata(9, m);
    assert_eq!(c.get_cached_metadata(9), Some(m));
    assert_eq!(c.get_cached_metadata(8), None);
}

#[test]
fn parents_are_found_by_child() {
    let mut c = FatCaches::new();
    c.remember_parent(2, 7);
    c.remember_parent(2, 8);
    assert_eq!(c.get_parent(7), Some(2));
    assert_eq!(c.get_parent(8), Some(2));
    assert_eq!(c.get_parent(2), None);
    // A pair whose parent field is the child's cluster is rewritten.
    c.remember_parent(3, 2);
    assert_eq!(c.parents, vec![(2, 3), (2, 8)]);
    assert_eq!(c.get_parent(3), Some(2));
}

#[test]
fn inode_write_read_and_size() {
    let (fs, mut disk) = fresh();
    let root = fs.bpb.root_cluster;
    let mut caches = FatCaches::for_volume(&fs);
    let fsys = Fat32Filesystem::new(fs);
    let fs = fsys.inner();
    let dir = fsys.root_inode(&caches);
    assert_eq!(dir.cluster, root);
    assert_eq!(dir.metadata.mode.0, 0o755);
    assert_eq!(dir.metadata.file_type, FileType::Directory);

    let c = fs.create_file(&mut disk, root, "NOTE.TXT").unwrap();
    assert_eq!(dir.lookup(fs, &mut caches, &disk, "note.txt"), Ok(c as u64));
    assert_eq!(caches.get_parent(c), Some(root));
    let file = fsys.get_inode(&caches, c as u64).unwrap();
    assert_eq!(file.metadata.file_type, FileType::Regular);
    assert_eq!(file.metadata.size, 0);

    assert_eq!(file.write(fs, &mut caches, &mut disk, 0, b"hello"), Ok(5));
    assert_eq!(file.metadata(&caches).unwrap().size, 5);
    let mut buf = [0u8; 16];
    assert_eq!(file.read(fs, &caches, &disk, 0, &mut buf), Ok(5));
    assert_eq!(&buf[..5], b"hello");
    assert_eq!(file.read(fs, &caches, &disk, 3, &mut buf), Ok(2));
    assert_eq!(&buf[..2], b"lo");
    assert_eq!(file.read(fs, &caches, &disk, 5, &mut buf), Ok(0));
    // The parent's entry records the new size.
    let (_, _, e) = fs.find_dir_entry(&disk, root, "NOTE.TXT").unwrap().unwrap();
    assert_eq!({ e.size }, 5);

    assert_eq!(dir.read(fs, &caches, &disk, 0, &mut buf), Err(VfsError::IsADirectory));
    assert_eq!(dir.write(fs, &mut caches, &mut disk, 0, b"x"), Err(VfsError::IsADirectory));
    assert_eq!(file.lookup(fs, &mut caches, &disk, "x"), Err(VfsError::NotADirectory));
    assert!(file.readdir(fs, &mut caches, &disk).is_err());
    assert_eq!(dir.lookup(fs, &mut caches, &disk, "nope"), Err(VfsError::NotFound));
    assert_eq!(fsys.get_inode(&caches, 999).err(), Some(VfsError::NotFound));
    assert_eq!(fsys.name(), "fat32");
    assert_eq!(file.set_metadata(&file.metadata), Ok(()));
    assert_eq!(file.sync(), Ok(()));
}

#[test]
fn readdir_lists_entries_without_dots() {
    let (fs, mut disk) = fresh();
    let root = fs.bpb.root_cluster;
    let mut caches = FatCaches::for_volume(&fs);
    let sub = fs.create_dir(&mut disk, root, "SUB").unwrap();
    let f = fs.create_file(&mut disk, sub, "A.TXT").unwrap();
    fs.create_file(&mut disk, sub, "B").unwrap();
    fs.unlink(&mut disk, sub, "B").unwrap();
    let sub_inode = FatInode::new(sub, InodeMetadata::new(sub as u64, FileType::Directory));
    let list = sub_inode.readdir(&fs, &mut caches, &disk).unwrap();
    assert_eq!(list.len(), 1);
    assert_eq!(list[0].name, "A.TXT");
    assert_eq!(list[0].ino, f as u64);
    assert_eq!(list[0].file_type, FileType::Regular);
    assert_eq!(caches.get_parent(f), Some(sub));
    let top = FatInode::new(root, InodeMetadata::new(root as u64, FileType::Directory));
    let names: Vec<String> = top.readdir(&fs, &mut caches, &disk).unwrap().into_iter().map(|e| e.name).collect();
    assert_eq!(names, vec![String::from("SUB")]);
    assert_eq!(caches.get_cached_metadata(sub as u64).unwrap().mode.0, 0o755);
}

/// The boot counter kept in `/TEST/BOOT.CNT`: created on the first boot,
/// read, incremented and written back on each.
fn boot(fs: &Fat32Fs, disk: &mut Vec<u8>) -> u32 {
    let root = fs.bpb.root_cluster;
    let test = match fs.create_dir(disk, root, "TEST") {
        Ok(c) => c,
        Err(VfsError::AlreadyExists) => fs.lookup_in_dir(disk, root, "TEST").unwrap(),
        Err(e) => panic!("{:?}", e),
    };
    let (file, size) = match fs.find_dir_entry(disk, test, "BOOT.CNT").unwrap() {
        Some((_, _, e)) => (e.get_cluster(), e.size),
        None => (fs.create_file(disk, test, "BOOT.CNT").unwrap(), 0),
    };
    let mut buf = [0u8; 16];
    let n = if size > 0 { fs.read_chain(disk, file, 0, &mut buf[..size as usize]).unwrap() } else { 0 };
    let value: u32 = std::str::from_utf8(&buf[..n]).unwrap_or("0").trim().parse().unwrap_or(0);
    let next = value.saturating_add(1);
    let s = next.to_string();
    let (_, w) = fs.write_chain(disk, file, 0, s.as_bytes()).unwrap();
    fs.update_dir_entry_size(disk, test, file, w as u32).unwrap();
    let mut verify = [0u8; 16];
    let vn = fs.read_chain(disk, file, 0, &mut verify[..s.len()]).unwrap();
    assert_eq!(&verify[..vn], s.as_bytes());
    next
}

#[test]
fn boot_counter_persists_across_boots() {
    let (fs, mut disk) = fresh();
    assert_eq!(boot(&fs, &mut disk), 1);
    assert_eq!(boot(&fs, &mut disk), 2);
    let fs2 = Fat32Fs::new(&disk[..512]).unwrap();
    assert_eq!(boot(&fs2, &mut disk), 3);
}
