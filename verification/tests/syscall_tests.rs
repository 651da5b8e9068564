use lib::syscall::error::{result_to_raw, SyscallError};
use lib::syscall::handlers::{map_vfs_error, sys_isatty, validate_user_ptr, USER_SPACE_MAX};
use lib::vfs::inode::VfsError;

#[test]
fn test_map_vfs_error() {
    assert_eq!(map_vfs_error(VfsError::NotFound), SyscallError::ENOENT);
    assert_eq!(map_vfs_error(VfsError::PermissionDenied), SyscallError::EACCES);
    assert_eq!(map_vfs_error(VfsError::NotADirectory), SyscallError::ENOTDIR);
    assert_eq!(map_vfs_error(VfsError::IsADirectory), SyscallError::EISDIR);
    assert_eq!(map_vfs_error(VfsError::AlreadyExists), SyscallError::EEXIST);
    assert_eq!(map_vfs_error(VfsError::NoSpace), SyscallError::ENOSPC);
    assert_eq!(map_vfs_error(VfsError::InvalidArgument), SyscallError::EINVAL);
    assert_eq!(map_vfs_error(VfsError::BadFileDescriptor), SyscallError::EBADF);
    assert_eq!(map_vfs_error(VfsError::TooManyOpenFiles), SyscallError::EMFILE);
    assert_eq!(map_vfs_error(VfsError::BrokenPipe), SyscallError::EIO);
    assert_eq!(map_vfs_error(VfsError::WouldBlock), SyscallError::EAGAIN);
    assert_eq!(map_vfs_error(VfsError::IoError), SyscallError::EIO);
    assert_eq!(map_vfs_error(VfsError::NotImplemented), SyscallError::EIO);
}

#[test]
fn errno_values_are_negative_linux_codes() {
    assert_eq!(SyscallError::EPERM.as_i64(), -1);
    assert_eq!(SyscallError::ENOENT.as_i64(), -2);
    assert_eq!(SyscallError::EBADF.as_i64(), -9);
    assert_eq!(SyscallError::EAGAIN.as_i64(), -11);
    assert_eq!(SyscallError::EINVAL.as_i64(), -22);
    assert_eq!(SyscallError::ENOSYS.as_i64(), -38);
}

#[test]
fn result_to_raw_passes_values_and_errors() {
    assert_eq!(result_to_raw(Ok(42)), 42);
    assert_eq!(result_to_raw(Err(SyscallError::ENOENT)), -2);
}

#[test]
fn user_pointer_ranges() {
    assert!(validate_user_ptr(0x1000, 16).is_ok());
    assert_eq!(validate_user_ptr(0, 16), Err(SyscallError::EFAULT));
    assert_eq!(validate_user_ptr(USER_SPACE_MAX, 16), Err(SyscallError::EFAULT));
}

#[test]
fn isatty_on_standard_streams() {
    assert_eq!(sys_isatty(0), Ok(1));
    assert!(sys_isatty(7).is_err());
}
