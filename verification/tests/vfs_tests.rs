use lib::tty::pty::alloc_pty;
use lib::vfs::file::{FdTable, OpenFile, O_RDONLY, O_WRONLY};
use lib::vfs::inode::{FileType, VfsError};
use lib::vfs::mount::MountTable;
use lib::vfs::path::split_components;
use lib::vfs::pipe::{create_pipe, pipe_end_metadata, PipeBuffer, PipeRead, FIRST_PIPE_INO, PIPE_CAPACITY};
use lib::vfs::socket::{socket_write, SocketBuffer, SocketState};
use lib::vfs::tmpfs::{Tmpfs, TmpfsFilesystem};

#[test]
fn tmpfs_create_then_lookup_and_unlink() {
    let mut fs = Tmpfs::new();
    let d = fs.create_dir(0, "etc").unwrap();
    let f = fs.create_file(d, "motd").unwrap();
    assert_eq!(fs.lookup_path("/etc/motd"), Ok(f));
    assert_eq!(fs.create_file(d, "motd"), Err(VfsError::AlreadyExists));
    assert_eq!(fs.write_inode(f, 0, b"hi there"), Ok(8));
    let mut buf = [0u8; 16];
    assert_eq!(fs.read_inode(f, 3, &mut buf), Ok(5));
    assert_eq!(&buf[..5], b"there");
    assert_eq!(fs.unlink(d, "motd"), Ok(()));
    assert_eq!(fs.lookup_path("/etc/motd"), Err(VfsError::NotFound));
    assert_eq!(fs.split_parent_leaf("/etc/x"), Ok((d, "x")));
    assert_eq!(fs.inode_metadata(d).unwrap().file_type, FileType::Directory);
}

#[test]
fn pipe_is_first_in_first_out() {
    let mut p = PipeBuffer::new();
    assert_eq!(p.write_end_write(b"abc"), Ok(3));
    assert_eq!(p.write_end_write(b"de"), Ok(2));
    let mut buf = [0u8; 4];
    assert_eq!(p.read_end_read(&mut buf), PipeRead::Data(4));
    assert_eq!(&buf, b"abcd");
    assert_eq!(p.read_end_read(&mut buf), PipeRead::Data(1));
    assert_eq!(buf[0], b'e');
    assert_eq!(p.read_end_read(&mut buf), PipeRead::Wait);
    p.close_write_end();
    assert_eq!(p.read_end_read(&mut buf), PipeRead::Eof);
    p.close_read_end();
    assert_eq!(p.write_end_write(b"x"), Err(VfsError::BrokenPipe));
}

#[test]
fn pipe_fills_up() {
    let mut p = PipeBuffer::new();
    let big = vec![1u8; PIPE_CAPACITY + 10];
    assert_eq!(p.write_end_write(&big), Ok(PIPE_CAPACITY));
    assert_eq!(p.write_end_write(b"y"), Err(VfsError::WouldBlock));
}

#[test]
fn create_pipe_numbers_both_ends() {
    let mut next = FIRST_PIPE_INO;
    let (buf, r, w) = create_pipe(&mut next);
    assert_eq!((r, w), (0xF000_0000, 0xF000_0001));
    assert_eq!(next, 0xF000_0002);
    assert_eq!(buf.readable(), 0);
    let m = pipe_end_metadata(w);
    assert_eq!(m.ino, 0xF000_0001);
    assert_eq!(m.file_type, FileType::Regular);
}

#[test]
fn fd_table_alloc_get_close() {
    let mut t: FdTable<u32> = FdTable::new();
    assert_eq!(t.alloc_fd(10), Ok(0));
    assert_eq!(t.alloc_fd(11), Ok(1));
    assert_eq!(t.get(1), Ok(11));
    assert_eq!(t.close(0), Ok(()));
    assert_eq!(t.get(0), Err(VfsError::BadFileDescriptor));
    assert_eq!(t.alloc_fd(12), Ok(0));
    assert_eq!(t.dup2(1, 5), Ok(5));
    assert_eq!(t.get(5), Ok(11));
    assert_eq!(t.dup(5), Ok(2));
    assert_eq!(t.close(9), Err(VfsError::BadFileDescriptor));
}

#[test]
fn mount_resolves_longest_prefix() {
    let mut m: MountTable<u32> = MountTable::new();
    m.mount("/", 1);
    m.mount("/dev", 2);
    let (e, rest) = m.resolve("/dev/null").unwrap();
    assert_eq!(e.fs, 2);
    assert_eq!(rest, "null");
    let (e, rest) = m.resolve("/devices").unwrap();
    assert_eq!(e.fs, 1);
    assert_eq!(rest, "devices");
    assert!(m.is_mounted("/dev"));
    assert_eq!(m.umount("/dev"), Ok(()));
    assert_eq!(m.umount("/dev"), Err(VfsError::NotFound));
}

#[test]
fn path_components() {
    let c = split_components("//a/./b/", true);
    assert_eq!(c, vec![String::from("a"), String::from("b")]);
    let c = split_components("a/./b", false);
    assert_eq!(c.len(), 3);
}

#[test]
fn socket_queue_and_write() {
    let mut q = SocketBuffer::new(4);
    assert_eq!(socket_write(SocketState::Connected, true, &mut q, b"hello"), Ok(4));
    assert_eq!(q.len(), 4);
    let mut out = [0u8; 8];
    assert_eq!(q.read(&mut out), 4);
    assert_eq!(&out[..4], b"hell");
    assert!(socket_write(SocketState::Unbound, false, &mut q, b"x").is_err());
}

#[test]
fn pty_pair_numbering_and_io() {
    let mut next = 0u32;
    let (mut m, s) = alloc_pty(&mut next);
    assert_eq!(s.index, 0);
    assert_eq!(next, 1);
    assert_eq!(m.slave_write(b"out"), 3);
    assert!(m.has_output());
    let mut buf = [0u8; 8];
    assert_eq!(m.read_output(&mut buf), 3);
    assert_eq!(&buf[..3], b"out");
    m.set_foreground(42);
    assert_eq!(m.set_winsize(30, 100), Some(42));
    assert_eq!(m.winsize().rows, 30);
}

#[test]
fn cloned_descriptor_table_is_independent() {
    let mut t: FdTable<u32> = FdTable::new();
    assert_eq!(t.alloc_fd(10), Ok(0));
    assert_eq!(t.alloc_fd(11), Ok(1));
    let mut c = t.clone_fds();
    for fd in -1..300 {
        assert_eq!(c.get(fd).is_ok(), t.get(fd).is_ok());
    }
    assert_eq!(c.get(1), Ok(11));
    assert_eq!(c.close(0), Ok(()));
    assert_eq!(c.alloc_fd(20), Ok(0));
    assert_eq!(t.get(0), Ok(10));
    assert_eq!(t.close(1), Ok(()));
    assert_eq!(c.get(1), Ok(11));
    assert_eq!(c.dup2(0, 255), Ok(255));
    assert!(t.get(255).is_err());
}

#[test]
fn read_moves_the_offset_by_what_was_read() {
    let mut f: OpenFile<()> = OpenFile::new(3, (), O_RDONLY);
    assert_eq!(f.read_start(), Ok(0));
    assert_eq!(f.finish(Ok(5)), Ok(5));
    assert_eq!(f.read_start(), Ok(5));
    assert_eq!(f.finish(Err(VfsError::IoError)), Err(VfsError::IoError));
    assert_eq!(f.offset, 5);
    let w: OpenFile<()> = OpenFile::new(3, (), O_WRONLY);
    assert_eq!(w.read_start(), Err(VfsError::PermissionDenied));
}

#[test]
fn path_lookup_walks_through_the_serving_mount() {
    let mut root = Tmpfs::new();
    let a = root.create_dir(0, "a").unwrap();
    let b = root.create_file(a, "b").unwrap();
    let mut tmp = Tmpfs::new();
    let x = tmp.create_file(0, "x").unwrap();
    let mut m: MountTable<TmpfsFilesystem> = MountTable::new();
    m.mount("/", TmpfsFilesystem::new(root));
    m.mount("/tmp", TmpfsFilesystem::new(tmp));
    assert_eq!(m.lookup_path("/a/b").unwrap().1, b);
    assert_eq!(m.lookup_path("/a/./b/").unwrap().1, b);
    assert_eq!(m.lookup_path("/").unwrap().1, 0);
    assert_eq!(m.lookup_path("/tmp").unwrap().1, 0);
    assert_eq!(m.lookup_path("/tmp/x").unwrap().1, x);
    assert!(matches!(m.lookup_path("/tmp/b"), Err(VfsError::NotFound)));
    assert!(matches!(m.lookup_path("/a/b/c"), Err(VfsError::NotADirectory)));
    assert!(matches!(m.lookup_path("a/b"), Err(VfsError::NotFound)));
}
