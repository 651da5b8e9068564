use lib::vfs::devfs::{
    DeviceKind, DeviceOps, DeviceType, Devfs, DevfsFilesystem, NullDevice, RamBlockDevOps, UrandomDevice, ZeroDevice,
};
use lib::vfs::inode::{FileType, VfsError};
use lib::vfs::mount::MountTable;

#[test]
fn default_devices_registered_in_order() {
    let mut d = Devfs::new();
    d.register_defaults(true);
    let entries = d.readdir();
    assert_eq!(entries.len(), 13);
    assert_eq!(entries[0].name, "serial0");
    assert_eq!(entries[0].ino, 1);
    assert_eq!(entries[12].name, "ram0");
    assert_eq!(entries[12].file_type, FileType::BlockDevice);
    assert_eq!(d.lookup("null"), Ok(2));
    assert_eq!(d.lookup("nope"), Err(VfsError::NotFound));
    assert_eq!(d.device_kind(1), DeviceKind::Null);
    let m = d.device_metadata(8);
    assert_eq!(m.dev_major, 136);
    assert_eq!(m.mode.0, 0o666);
    assert_eq!(m.file_type, FileType::CharDevice);
    assert_eq!(d.get_inode(13), Ok(13));
    assert_eq!(d.get_inode(14), Err(VfsError::NotFound));
    assert_eq!(d.root_metadata().file_type, FileType::Directory);
    let mut plain = Devfs::new();
    plain.register_defaults(false);
    assert_eq!(plain.readdir().len(), 12);
    assert_eq!(plain.register("extra", DeviceType::Char, 9, 9, DeviceKind::Zero), 13);
    assert_eq!(DevfsFilesystem::new(plain).name(), "devfs");
}

#[test]
fn null_and_zero_devices() {
    let mut buf = [7u8; 4];
    assert_eq!(NullDevice.read(0, &mut buf), Ok(0));
    assert_eq!(buf, [7u8; 4]);
    assert_eq!(NullDevice.write(0, b"abc"), Ok(3));
    assert_eq!(ZeroDevice.read(0, &mut buf), Ok(4));
    assert_eq!(buf, [0u8; 4]);
    assert_eq!(ZeroDevice.write(0, b"ab"), Ok(2));
}

#[test]
fn urandom_generator_is_the_lcg() {
    let mut buf = [0u8; 3];
    UrandomDevice::fill(1, &mut buf);
    let mut s: u64 = 1;
    for b in buf.iter() {
        s = s.wrapping_mul(6364136223846793005).wrapping_add(1442695040888963407);
        assert_eq!(*b, (s >> 33) as u8);
    }
    assert_eq!(UrandomDevice::write(b"xyz"), Ok(3));
}

#[test]
fn ram_disk_reads_back_writes_across_sectors() {
    let mut ram = RamBlockDevOps::new(vec![0u8; 4 * 512 + 100]);
    let data: Vec<u8> = (0..700u32).map(|i| (i % 251) as u8).collect();
    assert_eq!(ram.write(500, &data), Ok(700));
    let mut back = vec![9u8; 710];
    assert_eq!(ram.read(500, &mut back), Ok(710));
    assert_eq!(&back[..700], &data[..]);
    assert!(back[700..].iter().all(|b| *b == 0));
    // The trailing partial sector is not part of the device.
    assert_eq!(ram.write(4 * 512, b"x"), Err(VfsError::NoSpace));
    assert_eq!(ram.read(4 * 512, &mut back), Ok(0));
    assert_eq!(ram.write(4 * 512 - 2, b"abcd"), Ok(2));
    let mut tail = [0u8; 8];
    assert_eq!(ram.read(4 * 512 - 4, &mut tail), Ok(4));
    assert_eq!(&tail[..4], &[0, 0, b'a', b'b']);
    let dev = ram.into_inner();
    assert_eq!(dev.len(), 4 * 512 + 100);
    assert_eq!(dev[500], 0);
    assert_eq!(dev[501], 1);
}

#[test]
fn dev_paths_resolve_through_the_devfs_mount() {
    let mut d = Devfs::new();
    d.register_defaults(false);
    let mut m: MountTable<DevfsFilesystem> = MountTable::new();
    m.mount("/dev", DevfsFilesystem::new(d));
    assert_eq!(m.lookup_path("/dev").unwrap().1, 0);
    assert_eq!(m.lookup_path("/dev/null").unwrap().1, 2);
    assert_eq!(m.lookup_path("/dev/console").unwrap().1, 4);
    assert!(matches!(m.lookup_path("/dev/nothing"), Err(VfsError::NotFound)));
    assert!(matches!(m.lookup_path("/dev/null/x"), Err(VfsError::NotADirectory)));
    assert!(matches!(m.lookup_path("/etc"), Err(VfsError::NotFound)));
}
