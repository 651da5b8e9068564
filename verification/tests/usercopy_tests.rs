use lib::syscall::error::SyscallError;
use lib::syscall::usercopy::{
    check_user_range, range_page_count, read_user_string, strlen_user, Access, PTE_USER, PTE_WRITABLE,
};

#[test]
fn page_counts() {
    assert_eq!(range_page_count(0x1000, 1), 1);
    assert_eq!(range_page_count(0x1FFF, 2), 2);
    assert_eq!(range_page_count(0x1000, 0x2000), 2);
    assert_eq!(range_page_count(0x1800, 0x2000), 3);
}

#[test]
fn range_checks_follow_page_flags() {
    let rw = Some(PTE_USER | PTE_WRITABLE);
    let ro = Some(PTE_USER);
    let kernel = Some(PTE_WRITABLE);
    assert_eq!(check_user_range(0x1800, 0x1000, Access::Write, &vec![rw, rw]), Ok(()));
    assert_eq!(check_user_range(0x1800, 0x1000, Access::Read, &vec![rw, ro]), Ok(()));
    assert_eq!(check_user_range(0x1800, 0x1000, Access::Write, &vec![rw, ro]), Err(SyscallError::EFAULT));
    assert_eq!(check_user_range(0x1800, 0x1000, Access::Read, &vec![rw, None]), Err(SyscallError::EFAULT));
    assert_eq!(check_user_range(0x1800, 16, Access::Read, &vec![kernel]), Err(SyscallError::EFAULT));
    assert_eq!(check_user_range(0, 16, Access::Read, &vec![rw]), Err(SyscallError::EFAULT));
    assert_eq!(check_user_range(0x7FFF_FFFF_FFF0, 0x100, Access::Read, &vec![rw]), Err(SyscallError::EFAULT));
    assert_eq!(check_user_range(0x1000, 0, Access::Write, &vec![]), Ok(()));
}

#[test]
fn string_lengths() {
    let bytes = b"hello\0world";
    assert_eq!(strlen_user(0x1000, 64, bytes), Ok(5));
    assert_eq!(strlen_user(0x1000, 3, bytes), Err(SyscallError::ENAMETOOLONG));
    assert_eq!(strlen_user(0x1000, 64, b"abc"), Err(SyscallError::EFAULT));
    assert_eq!(strlen_user(0x1000, 3, b"abc"), Err(SyscallError::EFAULT));
    assert_eq!(strlen_user(0, 64, bytes), Err(SyscallError::EFAULT));
    assert_eq!(strlen_user(0x1000, 0, b"\0"), Ok(0));
    assert_eq!(strlen_user(0x1000, 5, bytes), Ok(5));
    assert_eq!(strlen_user(0x1000, 4, bytes), Err(SyscallError::ENAMETOOLONG));
}

#[test]
fn user_strings() {
    assert_eq!(read_user_string(0x1000, 64, b"/bin/sh\0junk"), Ok(String::from("/bin/sh")));
    assert_eq!(read_user_string(0x1000, 64, &[0xFF, 0xFE, 0]), Err(SyscallError::EINVAL));
    assert_eq!(read_user_string(0x1000, 2, b"/bin/sh\0"), Err(SyscallError::ENAMETOOLONG));
}
