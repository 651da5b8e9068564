use lib::syscall::error::SyscallError;
use lib::syscall::open::{open_plan, DacAccess, OpenTarget};
use lib::syscall::spawn::{ensure_console_stdio, install_fd_exact};
use lib::task::task::Credentials;
use lib::vfs::file::{FdTable, O_CREAT, O_RDONLY, O_RDWR, O_TRUNC, O_WRONLY};
use lib::vfs::inode::VfsError;

fn user() -> Credentials {
    let mut c = Credentials::root();
    c.euid = 1000;
    c.egid = 100;
    c
}

#[test]
fn open_existing_file_checks_its_access_mode() {
    let p = open_plan(Ok(12), O_RDONLY, 0, 0o022, user()).unwrap();
    assert_eq!(p.target, OpenTarget::Existing(12));
    assert!(p.parent_checks.is_empty());
    assert_eq!(p.file_checks, vec![DacAccess::Read]);
    let p = open_plan(Ok(12), O_WRONLY | O_TRUNC, 0, 0o022, user()).unwrap();
    assert_eq!(p.file_checks, vec![DacAccess::Write, DacAccess::Write]);
    let p = open_plan(Ok(12), O_RDWR, 0, 0o022, user()).unwrap();
    assert_eq!(p.file_checks, vec![DacAccess::Read, DacAccess::Write]);
}

#[test]
fn open_with_create_makes_a_file_owned_by_the_caller() {
    let p = open_plan(Err(VfsError::NotFound), O_CREAT | O_WRONLY, 0, 0o022, user()).unwrap();
    assert_eq!(p.target, OpenTarget::Create { mode: 0o644, uid: 1000, gid: 100 });
    assert_eq!(p.parent_checks, vec![DacAccess::Write, DacAccess::Execute]);
    assert_eq!(p.file_checks, vec![DacAccess::Write]);
    let p = open_plan(Err(VfsError::NotFound), O_CREAT, 0o10755, 0o027, user()).unwrap();
    assert_eq!(p.target, OpenTarget::Create { mode: 0o750, uid: 1000, gid: 100 });
}

#[test]
fn open_reports_lookup_errors() {
    assert!(matches!(open_plan(Err(VfsError::NotFound), O_RDONLY, 0, 0, user()), Err(SyscallError::ENOENT)));
    assert!(matches!(open_plan(Err(VfsError::NotADirectory), O_CREAT, 0, 0, user()), Err(SyscallError::ENOTDIR)));
    assert!(matches!(open_plan(Err(VfsError::PermissionDenied), O_RDONLY, 0, 0, user()), Err(SyscallError::EACCES)));
}

#[test]
fn spawned_process_gets_the_console_for_missing_streams() {
    let mut fds: FdTable<u32> = FdTable::new();
    assert_eq!(fds.alloc_fd(5), Ok(0));
    ensure_console_stdio(&mut fds, Some((10, 11, 12)));
    assert_eq!(fds.get(0), Ok(5));
    assert_eq!(fds.get(1), Ok(11));
    assert_eq!(fds.get(2), Ok(12));
    let mut none: FdTable<u32> = FdTable::new();
    ensure_console_stdio(&mut none, None);
    assert!(none.get(0).is_err());
}

#[test]
fn install_puts_the_file_at_the_exact_descriptor() {
    let mut fds: FdTable<u32> = FdTable::new();
    assert!(install_fd_exact(&mut fds, 2, 7).is_ok());
    assert_eq!(fds.get(2), Ok(7));
    assert!(fds.get(0).is_err());
    assert!(fds.get(1).is_err());
    assert!(install_fd_exact(&mut fds, 2, 8).is_ok());
    assert_eq!(fds.get(2), Ok(8));
}
