use lib::vfs::initramfs::{Initramfs, InitramfsFs};
use lib::vfs::inode::{FileType, VfsError};

fn image(files: &[(&str, &[u8])]) -> Vec<u8> {
    let mut out = b"RACRAMFS".to_vec();
    out.extend_from_slice(&(files.len() as u32).to_le_bytes());
    for (name, data) in files {
        out.extend_from_slice(&(name.len() as u16).to_le_bytes());
        out.extend_from_slice(name.as_bytes());
        out.extend_from_slice(&(data.len() as u32).to_le_bytes());
        out.extend_from_slice(data);
    }
    out
}

#[test]
fn add_path_creates_directories_and_file() {
    let mut fs = Initramfs::new();
    fs.add_path("/sbin//init", b"ELF");
    let sbin = fs.lookup(0, "sbin").unwrap();
    let init = fs.lookup(sbin, "init").unwrap();
    let mut buf = [0u8; 8];
    assert_eq!(fs.read_inode(init, 0, &mut buf), Ok(3));
    assert_eq!(&buf[..3], b"ELF");
    assert_eq!(fs.read_inode(sbin, 0, &mut buf), Err(VfsError::IsADirectory));
    assert_eq!(fs.lookup(init, "x"), Err(VfsError::NotADirectory));
    assert_eq!(fs.lookup(0, "etc"), Err(VfsError::NotFound));
    fs.add_path("sbin/other", b"");
    assert_eq!(fs.readdir(sbin).unwrap().len(), 2);
}

#[test]
fn metadata_is_read_only_mode() {
    let mut fs = Initramfs::new();
    let f = fs.add_file("hello", b"hi there");
    let m = fs.inode_metadata(f).unwrap();
    assert_eq!(m.size, 8);
    assert_eq!(m.mode.0, 0o555);
    assert_eq!(m.file_type, FileType::Regular);
    assert_eq!(fs.write_inode(f, 0, b"x"), Err(VfsError::PermissionDenied));
    let d = fs.add_dir("etc");
    let g = fs.add_file_to(d, "motd", b"welcome");
    assert_eq!(fs.lookup(d, "motd"), Ok(g));
    let entries = fs.readdir(0).unwrap();
    assert_eq!(entries.len(), 2);
    assert_eq!(entries[0].name, "hello");
    assert_eq!(entries[1].name, "etc");
    assert_eq!(fs.get_inode(99), Err(VfsError::NotFound));
}

#[test]
fn read_from_offset() {
    let mut fs = Initramfs::new();
    let f = fs.add_file("a", b"0123456789");
    let mut buf = [9u8; 4];
    assert_eq!(fs.read_inode(f, 8, &mut buf), Ok(2));
    assert_eq!(buf, [b'8', b'9', 9, 9]);
    assert_eq!(fs.read_inode(f, 10, &mut buf), Ok(0));
}

#[test]
fn from_binary_loads_files() {
    let img = image(&[("sbin/init", b"INIT"), ("etc/racinit/a.unit", b"[unit]")]);
    let fs = Initramfs::from_binary(&img).unwrap();
    let sbin = fs.lookup(0, "sbin").unwrap();
    let init = fs.lookup(sbin, "init").unwrap();
    assert_eq!(fs.inode_metadata(init).unwrap().size, 4);
    let etc = fs.lookup(0, "etc").unwrap();
    let rc = fs.lookup(etc, "racinit").unwrap();
    assert!(fs.lookup(rc, "a.unit").is_ok());
    let mounted = InitramfsFs::new(fs);
    assert_eq!(mounted.name(), "initramfs");
    assert_eq!(mounted.root_inode(), 0);
}

#[test]
fn from_binary_rejects_and_stops() {
    assert!(Initramfs::from_binary(b"RACRAMFS").is_none());
    assert!(Initramfs::from_binary(b"NOTRAMFS\x00\x00\x00\x00").is_none());
    let mut img = image(&[("ok", b"1"), ("cut", b"22222")]);
    img.truncate(img.len() - 2);
    let fs = Initramfs::from_binary(&img).unwrap();
    assert!(fs.lookup(0, "ok").is_ok());
    assert_eq!(fs.lookup(0, "cut"), Err(VfsError::NotFound));
    let mut bad = image(&[("x", b"")]);
    bad[14] = 0xff;
    let fs = Initramfs::from_binary(&bad).unwrap();
    assert_eq!(fs.readdir(0).unwrap().len(), 0);
}
