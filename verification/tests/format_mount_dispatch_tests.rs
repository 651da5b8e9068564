use lib::syscall::dispatch::{decode_syscall, Syscall, SYS_CLONE, SYS_EXIT, SYS_PTHREAD_CREATE};
use lib::syscall::error::SyscallError;
use lib::syscall::handlers::{sys_sigaction, sys_uname, KSigAction};
use lib::syscall::mount_args::{mount_source, mount_target, FsKind};
use lib::task::signal::SignalState;
use lib::vfs::fat32_format::format_volume;
use lib::vfs::inode::VfsError;
use lib::vfs::mount::MountTable;

#[test]
fn format_volume_writes_a_mountable_empty_volume() {
    let mut disk = vec![0xA5u8; 4096 * 512];
    let fs = format_volume(&mut disk, "racos").unwrap();
    assert_eq!(disk.len(), 4096 * 512);
    assert_eq!(disk[510], 0x55);
    assert_eq!(disk[511], 0xAA);
    assert!(disk[..512] == disk[6 * 512..7 * 512]);
    assert_eq!(&disk[512..516], &0x4161_5252u32.to_le_bytes());
    assert_eq!(&disk[32 * 512..32 * 512 + 4], &0x0FFF_FFF8u32.to_le_bytes());
    assert_eq!(&disk[32 * 512 + 8..32 * 512 + 12], &0x0FFF_FFFFu32.to_le_bytes());
    assert_eq!(&fs.bpb.vol_label, b"RACOS      ");
    assert_eq!(fs.fat_offset, 32);
    assert_eq!(fs.data_offset, 32 + fs.bpb.sectors_per_fat_32 as u64);
    // Bytes past the root cluster are left as they were.
    let end = (fs.data_offset as usize + 1) * 512;
    assert!(disk[end..].iter().all(|b| *b == 0xA5));
    assert!(disk[fs.data_offset as usize * 512..end].iter().all(|b| *b == 0));
    assert_eq!(fs.lookup_in_dir(&disk, 2, "ANY.TXT"), Err(VfsError::NotFound));
    let f = fs.create_file(&mut disk, 2, "a.txt").unwrap();
    assert_eq!(fs.lookup_in_dir(&disk, 2, "A.TXT"), Ok(f));
}

#[test]
fn format_volume_needs_256_sectors() {
    let mut disk = vec![7u8; 255 * 512];
    assert!(matches!(format_volume(&mut disk, "x"), Err(VfsError::NoSpace)));
    assert!(disk.iter().all(|b| *b == 7));
}

#[test]
fn syscall_numbers_decode() {
    assert_eq!(decode_syscall(SYS_EXIT), Ok(Syscall::Exit));
    assert_eq!(decode_syscall(2), Ok(Syscall::Write));
    assert_eq!(decode_syscall(SYS_CLONE), Ok(Syscall::Clone));
    assert_eq!(decode_syscall(SYS_PTHREAD_CREATE), Ok(Syscall::PthreadCreate));
    assert_eq!(decode_syscall(79), Err(SyscallError::ENOSYS));
    assert_eq!(SyscallError::ENOSYS.as_i64(), -38);
}

#[test]
fn mount_arguments() {
    assert_eq!(mount_target(false, "/mnt"), Err(SyscallError::EPERM));
    assert_eq!(mount_target(true, "mnt"), Err(SyscallError::EINVAL));
    assert_eq!(mount_target(true, ""), Err(SyscallError::EINVAL));
    assert_eq!(mount_target(true, "/mnt//"), Ok(String::from("/mnt")));
    assert_eq!(mount_target(true, "/"), Ok(String::from("/")));
    assert_eq!(mount_source("tmpfs", None), Ok((FsKind::Tmpfs, None)));
    assert_eq!(mount_source("procfs", None), Ok((FsKind::Procfs, None)));
    assert_eq!(mount_source("dev", Some("x")), Ok((FsKind::Devfs, None)));
    assert_eq!(mount_source("ext4", None), Err(SyscallError::EINVAL));
    assert_eq!(mount_source("fat32", None), Err(SyscallError::EINVAL));
    assert_eq!(mount_source("fat", Some("")), Err(SyscallError::EINVAL));
    assert_eq!(mount_source("fat", Some("/dev/vdb")), Ok((FsKind::Fat32, Some(String::from("vdb")))));
    assert_eq!(mount_source("fat32", Some("vdb")), Ok((FsKind::Fat32, Some(String::from("vdb")))));
}

#[test]
fn sigaction_succeeds_with_null_pointers() {
    let mut s = SignalState::new();
    let act = KSigAction { handler: 0x4000, flags: 0, mask: 0 };
    assert_eq!(sys_sigaction(&mut s, 2, 0, act, 0), Ok(None));
    assert_eq!(s.get_handler(2), 0);
}

#[test]
fn umount_leaves_the_path_unmounted() {
    let mut mt: MountTable<u32> = MountTable::new();
    mt.mount("/", 1);
    mt.mount("/mnt", 2);
    mt.mount("/mnt", 3);
    assert_eq!(mt.entries().len(), 2);
    assert_eq!(mt.umount("/mnt"), Ok(()));
    assert!(!mt.is_mounted("/mnt"));
    assert_eq!(mt.umount("/mnt"), Err(VfsError::NotFound));
    assert_eq!(mt.umount("/"), Err(VfsError::InvalidArgument));
}

#[test]
fn uname_record() {
    assert_eq!(sys_uname(0), Err(SyscallError::EFAULT));
    let rec = sys_uname(0x1000).unwrap();
    assert_eq!(&rec[..6], b"RacOS\0");
    assert_eq!(&rec[65..71], b"racos\0");
    assert_eq!(&rec[130..136], b"0.1.0\0");
    assert_eq!(&rec[195..204], b"#1 RacOS\0");
    assert_eq!(&rec[260..267], b"x86_64\0");
    assert_eq!(rec[324], 0);
}
