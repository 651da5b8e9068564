//! Syscall error codes: the negative values returned in RAX.

use vstd::prelude::*;

verus! {

/// POSIX-style syscall error. Each variant stands for the negative number
/// given by [`SyscallError::as_i64`].
#[derive(Debug, Clone, Copy, PartialEq, Eq, Structural)]
pub enum SyscallError {
    EPERM,
    ENOENT,
    ESRCH,
    EINTR,
    EIO,
    ENXIO,
    EBADF,
    EAGAIN,
    ENOMEM,
    EACCES,
    EFAULT,
    EEXIST,
    ENOTDIR,
    EISDIR,
    EINVAL,
    ENFILE,
    EMFILE,
    ENOSPC,
    ERANGE,
    ENAMETOOLONG,
    ENOSYS,
    ENOEXEC,
    ECHILD,
    EPIPE,
    ENOTTY,
    ECONNREFUSED,
    EADDRINUSE,
    ENOTCONN,
    ETIMEDOUT,
}

/// The raw (negative) code of each error, as placed in RAX.
pub open spec fn errno_of(e: SyscallError) -> int {
    match e {
        SyscallError::EPERM => -1,
        SyscallError::ENOENT => -2,
        SyscallError::ESRCH => -3,
        SyscallError::EINTR => -4,
        SyscallError::EIO => -5,
        SyscallError::ENXIO => -6,
        SyscallError::EBADF => -9,
        SyscallError::EAGAIN => -11,
        SyscallError::ENOMEM => -12,
        SyscallError::EACCES => -13,
        SyscallError::EFAULT => -14,
        SyscallError::EEXIST => -17,
        SyscallError::ENOTDIR => -20,
        SyscallError::EISDIR => -21,
        SyscallError::EINVAL => -22,
        SyscallError::ENFILE => -23,
        SyscallError::EMFILE => -24,
        SyscallError::ENOSPC => -28,
        SyscallError::ERANGE => -34,
        SyscallError::ENAMETOOLONG => -36,
        SyscallError::ENOSYS => -38,
        SyscallError::ENOEXEC => -39,
        SyscallError::ECHILD => -10,
        SyscallError::EPIPE => -32,
        SyscallError::ENOTTY => -25,
        SyscallError::ECONNREFUSED => -111,
        SyscallError::EADDRINUSE => -98,
        SyscallError::ENOTCONN => -107,
        SyscallError::ETIMEDOUT => -110,
    }
}

impl SyscallError {
    /// The raw negative code of this error.
    pub fn as_i64(self) -> (r: i64)
        ensures
            r == errno_of(self),
    {
        match self {
            SyscallError::EPERM => -1,
            SyscallError::ENOENT => -2,
            SyscallError::ESRCH => -3,
            SyscallError::EINTR => -4,
            SyscallError::EIO => -5,
            SyscallError::ENXIO => -6,
            SyscallError::EBADF => -9,
            SyscallError::EAGAIN => -11,
            SyscallError::ENOMEM => -12,
            SyscallError::EACCES => -13,
            SyscallError::EFAULT => -14,
            SyscallError::EEXIST => -17,
            SyscallError::ENOTDIR => -20,
            SyscallError::EISDIR => -21,
            SyscallError::EINVAL => -22,
            SyscallError::ENFILE => -23,
            SyscallError::EMFILE => -24,
            SyscallError::ENOSPC => -28,
            SyscallError::ERANGE => -34,
            SyscallError::ENAMETOOLONG => -36,
            SyscallError::ENOSYS => -38,
            SyscallError::ENOEXEC => -39,
            SyscallError::ECHILD => -10,
            SyscallError::EPIPE => -32,
            SyscallError::ENOTTY => -25,
            SyscallError::ECONNREFUSED => -111,
            SyscallError::EADDRINUSE => -98,
            SyscallError::ENOTCONN => -107,
            SyscallError::ETIMEDOUT => -110,
        }
    }
}

/// Every error code is negative, and different errors have different codes.
pub proof fn lemma_errno_negative_and_distinct(a: SyscallError, b: SyscallError)
    ensures
        errno_of(a) < 0,
        a != b ==> errno_of(a) != errno_of(b),
{
}

/// Syscall result type.
pub type SyscallResult = Result<i64, SyscallError>;

/// Convert a syscall result to the raw RAX value: the value itself on
/// success, the negative error code on failure.
pub fn result_to_raw(result: SyscallResult) -> (r: i64)
    ensures
        match result {
            Ok(v) => r == v,
            Err(e) => r == errno_of(e),
        },
{
    match result {
        Ok(val) => val,
        Err(e) => e.as_i64(),
    }
}

} // verus!
