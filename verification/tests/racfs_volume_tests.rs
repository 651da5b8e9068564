use lib::vfs::inode::{FileType, VfsError};
use lib::vfs::racfs::{direntry_to_bytes, inode_to_bytes, DiskDirEntry, DiskInode, RACFS_MAGIC};
use lib::vfs::racfs_volume::Racfs;

const SECTORS: usize = 2048;

fn formatted() -> Racfs {
    Racfs::format_and_new(vec![0xAAu8; SECTORS * 512]).unwrap()
}

fn inode(itype: u8, size: u32, first_block: u32, entries: u32) -> DiskInode {
    let mut direct = [0u32; 8];
    direct[0] = first_block;
    DiskInode {
        itype,
        mode: 0o644,
        size,
        nlink: 1,
        uid: 0,
        gid: 0,
        direct,
        dir_entry_count: entries,
        indirect: 0,
        double_indirect: 0,
    }
}

/// A volume with `/hello` (inode 1, "hello racfs", in data block 2).
fn with_hello() -> Racfs {
    let fs = formatted();
    let sb = fs.superblock();
    let mut d = fs.into_device();
    let inode_base = sb.inode_start as usize * 512;
    let mut root = inode(2, 0, 1, 1);
    root.mode = 0o755;
    root.nlink = 2;
    d[inode_base..inode_base + 128].copy_from_slice(&inode_to_bytes(&root));
    let file = inode(1, 11, 2, 0);
    d[inode_base + 128..inode_base + 256].copy_from_slice(&inode_to_bytes(&file));
    let mut name = [0u8; 56];
    name[..5].copy_from_slice(b"hello");
    let de = DiskDirEntry { ino: 1, name_len: 5, name };
    let dir_block = (sb.data_start as usize) * 512;
    d[dir_block..dir_block + 64].copy_from_slice(&direntry_to_bytes(&de));
    let file_block = (sb.data_start as usize + 1) * 512;
    d[file_block..file_block + 11].copy_from_slice(b"hello racfs");
    Racfs::open(d).unwrap()
}

#[test]
fn format_then_open_finds_empty_root() {
    let fs = formatted();
    let sb = fs.superblock();
    assert_eq!(sb.magic, RACFS_MAGIC);
    assert_eq!(sb.data_start, 34);
    let d = fs.into_device();
    assert!(d[512..34 * 512].iter().enumerate().all(|(i, b)| *b == 0 || (i >= 512 && i < 640)));
    assert!(d[34 * 512..].iter().all(|b| *b == 0xAA));
    let fs = Racfs::open(d).unwrap();
    assert_eq!(fs.superblock(), sb);
    assert_eq!(fs.readdir(0).unwrap().len(), 0);
    assert_eq!(fs.dir_entry_count(0), Ok(0));
    let root = fs.read_inode(0).unwrap();
    assert_eq!(root.itype, 2);
    assert_eq!(root.nlink, 2);
    let meta = fs.inode_metadata(0).unwrap();
    assert_eq!(meta.file_type, FileType::Directory);
    assert_eq!(meta.mode.0, 0o755);
    assert_eq!(fs.stats(), (2048 - 34, 2048 - 34, 128, 127));
}

#[test]
fn format_needs_room_for_the_inode_table() {
    assert!(matches!(Racfs::format_and_new(vec![0u8; 20 * 512]), Err(VfsError::IoError)));
    assert!(Racfs::format_and_new(vec![0u8; 34 * 512]).is_ok());
}

#[test]
fn open_rejects_foreign_devices() {
    assert!(matches!(Racfs::open(vec![0u8; 100]), Err(VfsError::IoError)));
    assert!(matches!(Racfs::open(vec![0u8; 4096]), Err(VfsError::IoError)));
}

#[test]
fn lookups_and_reads() {
    let fs = with_hello();
    assert_eq!(fs.lookup_path("/"), Ok(0));
    assert_eq!(fs.lookup_path("/hello"), Ok(1));
    assert_eq!(fs.lookup_path("//./hello"), Ok(1));
    assert_eq!(fs.lookup_path("/nope"), Err(VfsError::NotFound));
    assert_eq!(fs.lookup_path("/hello/x"), Err(VfsError::NotADirectory));
    assert_eq!(fs.lookup_path_from(1, ""), Ok(1));
    assert_eq!(fs.split_parent_leaf("/hello"), Ok((0, "hello")));
    assert_eq!(fs.split_parent_leaf("/a/b"), Err(VfsError::NotFound));
    assert_eq!(fs.split_parent_leaf("/"), Err(VfsError::InvalidArgument));
    let mut buf = [0u8; 32];
    assert_eq!(fs.read_file(1, 0, &mut buf), Ok(11));
    assert_eq!(&buf[..11], b"hello racfs");
    let mut small = [7u8; 4];
    assert_eq!(fs.read_file(1, 6, &mut small), Ok(4));
    assert_eq!(&small, b"racf");
    assert_eq!(fs.read_file(1, 11, &mut small), Ok(0));
    assert_eq!(fs.read_file(0, 0, &mut small), Err(VfsError::IsADirectory));
    assert_eq!(fs.read_file(500, 0, &mut small), Err(VfsError::NotFound));
    let list = fs.readdir(0).unwrap();
    assert_eq!(list.len(), 1);
    assert_eq!(list[0].name, "hello");
    assert_eq!(list[0].ino, 1);
    assert_eq!(list[0].file_type, FileType::Regular);
    assert_eq!(fs.dir_entry_count(1), Err(VfsError::NotADirectory));
    assert_eq!(fs.inode_metadata(1).unwrap().size, 11);
    assert_eq!(fs.inode_metadata(5), Err(VfsError::NotFound));
}

#[test]
fn set_metadata_then_read_back() {
    let mut fs = with_hello();
    let mut meta = fs.inode_metadata(1).unwrap();
    meta.mode.0 = 0o100600;
    meta.uid = 1000;
    meta.gid = 100;
    assert_eq!(fs.set_inode_metadata(1, &meta), Ok(()));
    let back = fs.inode_metadata(1).unwrap();
    assert_eq!(back.mode.0, 0o600);
    assert_eq!(back.uid, 1000);
    assert_eq!(back.size, 11);
    assert_eq!(fs.set_inode_metadata(7, &meta), Err(VfsError::NotFound));
    let mut buf = [0u8; 11];
    assert_eq!(fs.read_file(1, 0, &mut buf), Ok(11));
    assert_eq!(&buf, b"hello racfs");
}

#[test]
fn create_write_read_back() {
    let mut fs = formatted();
    let f = fs.create_file(0, "notes.txt").unwrap();
    assert_eq!(f, 1);
    assert_eq!(fs.lookup_path("/notes.txt"), Ok(1));
    assert_eq!(fs.create_file(0, "notes.txt"), Err(VfsError::AlreadyExists));
    assert_eq!(fs.create_file(f, "x"), Err(VfsError::NotADirectory));
    let long = "n".repeat(57);
    assert_eq!(fs.create_file(0, &long), Err(VfsError::InvalidArgument));
    assert_eq!(fs.write_file(f, 0, b"hello world"), Ok(11));
    assert_eq!(fs.inode_metadata(f).unwrap().size, 11);
    let mut buf = [0u8; 32];
    assert_eq!(fs.read_file(f, 0, &mut buf), Ok(11));
    assert_eq!(&buf[..11], b"hello world");
    // Overwrite in the middle and extend across a block boundary.
    let big: Vec<u8> = (0..1500u32).map(|i| (i % 251) as u8).collect();
    assert_eq!(fs.write_file(f, 6, &big), Ok(1500));
    assert_eq!(fs.inode_metadata(f).unwrap().size, 1506);
    let mut back = vec![0u8; 1506];
    assert_eq!(fs.read_file(f, 0, &mut back), Ok(1506));
    assert_eq!(&back[..6], b"hello ");
    assert_eq!(&back[6..], &big[..]);
    assert_eq!(fs.write_file(0, 0, b"x"), Err(VfsError::IsADirectory));
    assert_eq!(fs.write_file(f, 16520 * 512, b"x"), Err(VfsError::NoSpace));
    let stats = fs.stats();
    assert_eq!(stats.1, 2048 - 34 - 4);
    assert_eq!(stats.3, 126);
}

#[test]
fn large_file_goes_through_indirect_blocks() {
    let mut fs = formatted();
    let f = fs.create_file(0, "big").unwrap();
    let data: Vec<u8> = (0..(140 * 512u32)).map(|i| (i % 253) as u8).collect();
    assert_eq!(fs.write_file(f, 0, &data), Ok(data.len()));
    let mut back = vec![0u8; data.len()];
    assert_eq!(fs.read_file(f, 0, &mut back), Ok(data.len()));
    assert!(back == data);
}

#[test]
fn directories_links_and_unlink() {
    let mut fs = formatted();
    let d = fs.create_dir(0, "home").unwrap();
    let f = fs.create_file(d, "a").unwrap();
    assert_eq!(fs.lookup(d, "a"), Ok(f));
    assert_eq!(fs.lookup(d, "b"), Err(VfsError::NotFound));
    assert_eq!(fs.link(d, "b", f), Ok(()));
    assert_eq!(fs.lookup_path("/home/b"), Ok(f));
    assert_eq!(fs.inode_metadata(f).unwrap().nlink, 2);
    assert_eq!(fs.link(0, "h2", d), Err(VfsError::IsADirectory));
    assert_eq!(fs.link(d, "", f), Err(VfsError::InvalidArgument));
    assert_eq!(fs.unlink(0, "home"), Err(VfsError::InvalidArgument));
    assert_eq!(fs.unlink(d, "a"), Ok(()));
    assert_eq!(fs.inode_metadata(f).unwrap().nlink, 1);
    assert_eq!(fs.lookup_path("/home/a"), Err(VfsError::NotFound));
    assert_eq!(fs.lookup_path("/home/b"), Ok(f));
    assert_eq!(fs.unlink(d, "b"), Ok(()));
    assert_eq!(fs.inode_metadata(f), Err(VfsError::NotFound));
    assert_eq!(fs.unlink(d, "b"), Err(VfsError::NotFound));
    assert_eq!(fs.dir_entry_count(d), Ok(0));
    assert_eq!(fs.unlink(0, "home"), Ok(()));
    assert_eq!(fs.readdir(0).unwrap().len(), 0);
}

#[test]
fn ensure_dir_path_creates_and_reuses() {
    let mut fs = formatted();
    let a = fs.ensure_dir_path("/var/lib/rpkg").unwrap();
    assert_eq!(fs.lookup_path("/var/lib/rpkg"), Ok(a));
    assert_eq!(fs.ensure_dir_path("/var/lib/rpkg"), Ok(a));
    assert_eq!(fs.ensure_dir_path("/"), Ok(0));
    let lib = fs.lookup_path("/var/lib").unwrap();
    fs.create_file(lib, "f").unwrap();
    assert_eq!(fs.ensure_dir_path("/var/lib/f/x"), Err(VfsError::NotADirectory));
    assert_eq!(fs.split_parent_leaf_from(lib, "rpkg/db"), Ok((a, "db")));
}

#[test]
fn filesystem_adapter() {
    let fs = with_hello();
    let whole = lib::vfs::racfs_volume::RacfsFilesystem::new(fs);
    assert_eq!(whole.root_ino(), 0);
    assert_eq!(whole.name(), "racfs");
    assert_eq!(whole.get_inode(1), Ok(1));
    assert_eq!(whole.get_inode(3), Err(VfsError::NotFound));
    assert_eq!(whole.inner().sync(), Ok(()));
}

#[test]
fn open_or_format_keeps_an_existing_volume() {
    let mut fs = Racfs::open_or_format(vec![0u8; SECTORS * 512]).unwrap();
    let f = fs.create_file(0, "keep").unwrap();
    fs.write_file(f, 0, b"data").unwrap();
    let dev = fs.into_device();
    let fs = Racfs::open_or_format(dev).unwrap();
    assert_eq!(fs.lookup_path("/keep"), Ok(f));
    let mut buf = [0u8; 4];
    assert_eq!(fs.read_file(f, 0, &mut buf), Ok(4));
    assert_eq!(&buf, b"data");
    assert_eq!(Racfs::open_or_format(vec![0u8; 100]).err(), Some(VfsError::IoError));
}

#[test]
fn overwrite_through_indirect_blocks_reads_back() {
    let mut fs = formatted();
    let f = fs.create_file(0, "big").unwrap();
    let data: Vec<u8> = (0..(140 * 512u32)).map(|i| (i % 253) as u8).collect();
    assert_eq!(fs.write_file(f, 0, &data), Ok(data.len()));
    let free_before = fs.stats().1;
    let patch = vec![0x5Au8; 1000];
    // Blocks 9 and 10 go through the single-indirect block.
    assert_eq!(fs.write_file(f, 5000, &patch), Ok(1000));
    // Blocks 136 and 137 go through the double-indirect block.
    assert_eq!(fs.write_file(f, 136 * 512 + 300, &patch), Ok(1000));
    assert_eq!(fs.stats().1, free_before);
    let mut back = vec![0u8; data.len()];
    assert_eq!(fs.read_file(f, 0, &mut back), Ok(data.len()));
    let mut expected = data.clone();
    expected[5000..6000].copy_from_slice(&patch);
    expected[136 * 512 + 300..136 * 512 + 1300].copy_from_slice(&patch);
    assert!(back == expected);
    assert_eq!(fs.inode_metadata(f).unwrap().size, data.len() as u64);
}

#[test]
fn unlinking_a_large_file_frees_its_blocks() {
    let mut fs = formatted();
    let f = fs.create_file(0, "big").unwrap();
    let free_before = fs.stats().1;
    let data = vec![7u8; 140 * 512];
    assert_eq!(fs.write_file(f, 0, &data), Ok(data.len()));
    // 140 data blocks, one single-indirect, one double-indirect and one
    // second-level block.
    assert_eq!(fs.stats().1, free_before - 143);
    assert_eq!(fs.unlink(0, "big"), Ok(()));
    assert_eq!(fs.stats().1, free_before);
}

#[test]
fn ensure_dir_path_stops_at_the_first_refusal() {
    let mut fs = formatted();
    let free_inodes = fs.stats().3;
    let long = format!("/{}/var", "x".repeat(60));
    assert_eq!(fs.ensure_dir_path(&long), Err(VfsError::InvalidArgument));
    assert_eq!(fs.stats().3, free_inodes);
    let var = fs.ensure_dir_path("/var").unwrap();
    fs.create_file(var, "f").unwrap();
    assert_eq!(fs.ensure_dir_path("/var/f"), Err(VfsError::NotADirectory));
    assert_eq!(fs.ensure_dir_path("var/"), Ok(var));
}
