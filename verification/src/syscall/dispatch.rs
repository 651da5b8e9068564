//! Syscall numbers and the decision of which handler a number selects.

use vstd::prelude::*;
use crate::syscall::error::SyscallError;

verus! {
/// Syscall number of `exit`.
pub const SYS_EXIT: u64 = 0;
/// Syscall number of `read`.
pub const SYS_READ: u64 = 1;
/// Syscall number of `write`.
pub const SYS_WRITE: u64 = 2;
/// Syscall number of `open`.
pub const SYS_OPEN: u64 = 3;
/// Syscall number of `close`.
pub const SYS_CLOSE: u64 = 4;
/// Syscall number of `stat`.
pub const SYS_STAT: u64 = 5;
/// Syscall number of `mmap`.
pub const SYS_MMAP: u64 = 6;
/// Syscall number of `munmap`.
pub const SYS_MUNMAP: u64 = 7;
/// Syscall number of `pipe`.
pub const SYS_PIPE: u64 = 8;
/// Syscall number of `dup`.
pub const SYS_DUP: u64 = 9;
/// Syscall number of `dup2`.
pub const SYS_DUP2: u64 = 10;
/// Syscall number of `exec`.
pub const SYS_EXEC: u64 = 11;
/// Syscall number of `spawn`.
pub const SYS_SPAWN: u64 = 12;
/// Syscall number of `wait`.
pub const SYS_WAIT: u64 = 13;
/// Syscall number of `getpid`.
pub const SYS_GETPID: u64 = 14;
/// Syscall number of `chdir`.
pub const SYS_CHDIR: u64 = 15;
/// Syscall number of `ioctl`.
pub const SYS_IOCTL: u64 = 16;
/// Syscall number of `kill`.
pub const SYS_KILL: u64 = 17;
/// Syscall number of `getcwd`.
pub const SYS_GETCWD: u64 = 18;
/// Syscall number of `setpgid`.
pub const SYS_SETPGID: u64 = 19;
/// Syscall number of `getpgid`.
pub const SYS_GETPGID: u64 = 20;
/// Syscall number of `setsid`.
pub const SYS_SETSID: u64 = 21;
/// Syscall number of `clock_gettime`.
pub const SYS_CLOCK_GETTIME: u64 = 22;
/// Syscall number of `getdents`.
pub const SYS_GETDENTS: u64 = 23;
/// Syscall number of `mkdir`.
pub const SYS_MKDIR: u64 = 24;
/// Syscall number of `unlink`.
pub const SYS_UNLINK: u64 = 25;
/// Syscall number of `fork`.
pub const SYS_FORK: u64 = 26;
/// Syscall number of `sigaction`.
pub const SYS_SIGACTION: u64 = 27;
/// Syscall number of `sigreturn`.
pub const SYS_SIGRETURN: u64 = 28;
/// Syscall number of `poll`.
pub const SYS_POLL: u64 = 29;
/// Syscall number of `getppid`.
pub const SYS_GETPPID: u64 = 30;
/// Syscall number of `getuid`.
pub const SYS_GETUID: u64 = 31;
/// Syscall number of `getgid`.
pub const SYS_GETGID: u64 = 32;
/// Syscall number of `setuid`.
pub const SYS_SETUID: u64 = 33;
/// Syscall number of `setgid`.
pub const SYS_SETGID: u64 = 34;
/// Syscall number of `geteuid`.
pub const SYS_GETEUID: u64 = 35;
/// Syscall number of `getegid`.
pub const SYS_GETEGID: u64 = 36;
/// Syscall number of `nanosleep`.
pub const SYS_NANOSLEEP: u64 = 37;
/// Syscall number of `truncate`.
pub const SYS_TRUNCATE: u64 = 38;
/// Syscall number of `fstat`.
pub const SYS_FSTAT: u64 = 39;
/// Syscall number of `lseek`.
pub const SYS_LSEEK: u64 = 40;
/// Syscall number of `access`.
pub const SYS_ACCESS: u64 = 41;
/// Syscall number of `chmod`.
pub const SYS_CHMOD: u64 = 42;
/// Syscall number of `chown`.
pub const SYS_CHOWN: u64 = 43;
/// Syscall number of `umask`.
pub const SYS_UMASK: u64 = 44;
/// Syscall number of `link`.
pub const SYS_LINK: u64 = 45;
/// Syscall number of `symlink`.
pub const SYS_SYMLINK: u64 = 46;
/// Syscall number of `readlink`.
pub const SYS_READLINK: u64 = 47;
/// Syscall number of `rename`.
pub const SYS_RENAME: u64 = 48;
/// Syscall number of `fcntl`.
pub const SYS_FCNTL: u64 = 49;
/// Syscall number of `isatty`.
pub const SYS_ISATTY: u64 = 50;
/// Syscall number of `socket`.
pub const SYS_SOCKET: u64 = 51;
/// Syscall number of `bind`.
pub const SYS_BIND: u64 = 52;
/// Syscall number of `listen`.
pub const SYS_LISTEN: u64 = 53;
/// Syscall number of `accept`.
pub const SYS_ACCEPT: u64 = 54;
/// Syscall number of `connect`.
pub const SYS_CONNECT: u64 = 55;
/// Syscall number of `send`.
pub const SYS_SEND: u64 = 56;
/// Syscall number of `recv`.
pub const SYS_RECV: u64 = 57;
/// Syscall number of `shutdown`.
pub const SYS_SHUTDOWN: u64 = 58;
/// Syscall number of `getsockname`.
pub const SYS_GETSOCKNAME: u64 = 59;
/// Syscall number of `getpeername`.
pub const SYS_GETPEERNAME: u64 = 60;
/// Syscall number of `setsockopt`.
pub const SYS_SETSOCKOPT: u64 = 61;
/// Syscall number of `getsockopt`.
pub const SYS_GETSOCKOPT: u64 = 62;
/// Syscall number of `waitpid`.
pub const SYS_WAITPID: u64 = 63;
/// Syscall number of `pipe2`.
pub const SYS_PIPE2: u64 = 64;
/// Syscall number of `uname`.
pub const SYS_UNAME: u64 = 65;
/// Syscall number of `mount`.
pub const SYS_MOUNT: u64 = 66;
/// Syscall number of `umount`.
pub const SYS_UMOUNT: u64 = 67;
/// Syscall number of `mprotect`.
pub const SYS_MPROTECT: u64 = 68;
/// Syscall number of `fsync`.
pub const SYS_FSYNC: u64 = 69;
/// Syscall number of `ftruncate`.
pub const SYS_FTRUNCATE: u64 = 70;
/// Syscall number of `writev`.
pub const SYS_WRITEV: u64 = 71;
/// Syscall number of `readv`.
pub const SYS_READV: u64 = 72;
/// Syscall number of `sched_yield`.
pub const SYS_SCHED_YIELD: u64 = 73;
/// Syscall number of `reboot`.
pub const SYS_REBOOT: u64 = 74;
/// Syscall number of `hostname`.
pub const SYS_HOSTNAME: u64 = 75;
/// Syscall number of `getrandom`.
pub const SYS_GETRANDOM: u64 = 76;
/// Syscall number of `clone`.
pub const SYS_CLONE: u64 = 77;
/// Syscall number of `gethostbyname`.
pub const SYS_GETHOSTBYNAME: u64 = 78;
/// Syscall number of `pthread_create`.
pub const SYS_PTHREAD_CREATE: u64 = 0x400;

/// The syscalls the kernel implements, one per number.
#[derive(Debug, Clone, Copy, PartialEq, Eq, Structural)]
pub enum Syscall {
    Exit,
    Read,
    Write,
    Open,
    Close,
    Stat,
    Mmap,
    Munmap,
    Pipe,
    Dup,
    Dup2,
    Exec,
    Spawn,
    Wait,
    Getpid,
    Chdir,
    Ioctl,
    Kill,
    Getcwd,
    Setpgid,
    Getpgid,
    Setsid,
    ClockGettime,
    Getdents,
    Mkdir,
    Unlink,
    Fork,
    Sigaction,
    Sigreturn,
    Poll,
    Getppid,
    Getuid,
    Getgid,
    Setuid,
    Setgid,
    Geteuid,
    Getegid,
    Nanosleep,
    Truncate,
    Fstat,
    Lseek,
    Access,
    Chmod,
    Chown,
    Umask,
    Link,
    Symlink,
    Readlink,
    Rename,
    Fcntl,
    Isatty,
    Socket,
    Bind,
    Listen,
    Accept,
    Connect,
    Send,
    Recv,
    Shutdown,
    Getsockname,
    Getpeername,
    Setsockopt,
    Getsockopt,
    Waitpid,
    Pipe2,
    Uname,
    Mount,
    Umount,
    Mprotect,
    Fsync,
    Ftruncate,
    Writev,
    Readv,
    SchedYield,
    Reboot,
    Hostname,
    Getrandom,
    Clone,
    Gethostbyname,
    PthreadCreate,
}

/// The syscall numbered `nr`, if the kernel implements one.
pub open spec fn syscall_of(nr: u64) -> Option<Syscall> {
    if nr == SYS_EXIT {
        Some(Syscall::Exit)
    } else if nr == SYS_READ {
        Some(Syscall::Read)
    } else if nr == SYS_WRITE {
        Some(Syscall::Write)
    } else if nr == SYS_OPEN {
        Some(Syscall::Open)
    } else if nr == SYS_CLOSE {
        Some(Syscall::Close)
    } else if nr == SYS_STAT {
        Some(Syscall::Stat)
    } else if nr == SYS_MMAP {
        Some(Syscall::Mmap)
    } else if nr == SYS_MUNMAP {
        Some(Syscall::Munmap)
    } else if nr == SYS_PIPE {
        Some(Syscall::Pipe)
    } else if nr == SYS_DUP {
        Some(Syscall::Dup)
    } else if nr == SYS_DUP2 {
        Some(Syscall::Dup2)
    } else if nr == SYS_EXEC {
        Some(Syscall::Exec)
    } else if nr == SYS_SPAWN {
        Some(Syscall::Spawn)
    } else if nr == SYS_WAIT {
        Some(Syscall::Wait)
    } else if nr == SYS_GETPID {
        Some(Syscall::Getpid)
    } else if nr == SYS_CHDIR {
        Some(Syscall::Chdir)
    } else if nr == SYS_IOCTL {
        Some(Syscall::Ioctl)
    } else if nr == SYS_KILL {
        Some(Syscall::Kill)
    } else if nr == SYS_GETCWD {
        Some(Syscall::Getcwd)
    } else if nr == SYS_SETPGID {
        Some(Syscall::Setpgid)
    } else if nr == SYS_GETPGID {
        Some(Syscall::Getpgid)
    } else if nr == SYS_SETSID {
        Some(Syscall::Setsid)
    } else if nr == SYS_CLOCK_GETTIME {
        Some(Syscall::ClockGettime)
    } else if nr == SYS_GETDENTS {
        Some(Syscall::Getdents)
    } else if nr == SYS_MKDIR {
        Some(Syscall::Mkdir)
    } else if nr == SYS_UNLINK {
        Some(Syscall::Unlink)
    } else if nr == SYS_FORK {
        Some(Syscall::Fork)
    } else if nr == SYS_SIGACTION {
        Some(Syscall::Sigaction)
    } else if nr == SYS_SIGRETURN {
        Some(Syscall::Sigreturn)
    } else if nr == SYS_POLL {
        Some(Syscall::Poll)
    } else if nr == SYS_GETPPID {
        Some(Syscall::Getppid)
    } else if nr == SYS_GETUID {
        Some(Syscall::Getuid)
    } else if nr == SYS_GETGID {
        Some(Syscall::Getgid)
    } else if nr == SYS_SETUID {
        Some(Syscall::Setuid)
    } else if nr == SYS_SETGID {
        Some(Syscall::Setgid)
    } else if nr == SYS_GETEUID {
        Some(Syscall::Geteuid)
    } else if nr == SYS_GETEGID {
        Some(Syscall::Getegid)
    } else if nr == SYS_NANOSLEEP {
        Some(Syscall::Nanosleep)
    } else if nr == SYS_TRUNCATE {
        Some(Syscall::Truncate)
    } else if nr == SYS_FSTAT {
        Some(Syscall::Fstat)
    } else if nr == SYS_LSEEK {
        Some(Syscall::Lseek)
    } else if nr == SYS_ACCESS {
        Some(Syscall::Access)
    } else if nr == SYS_CHMOD {
        Some(Syscall::Chmod)
    } else if nr == SYS_CHOWN {
        Some(Syscall::Chown)
    } else if nr == SYS_UMASK {
        Some(Syscall::Umask)
    } else if nr == SYS_LINK {
        Some(Syscall::Link)
    } else if nr == SYS_SYMLINK {
        Some(Syscall::Symlink)
    } else if nr == SYS_READLINK {
        Some(Syscall::Readlink)
    } else if nr == SYS_RENAME {
        Some(Syscall::Rename)
    } else if nr == SYS_FCNTL {
        Some(Syscall::Fcntl)
    } else if nr == SYS_ISATTY {
        Some(Syscall::Isatty)
    } else if nr == SYS_SOCKET {
        Some(Syscall::Socket)
    } else if nr == SYS_BIND {
        Some(Syscall::Bind)
    } else if nr == SYS_LISTEN {
        Some(Syscall::Listen)
    } else if nr == SYS_ACCEPT {
        Some(Syscall::Accept)
    } else if nr == SYS_CONNECT {
        Some(Syscall::Connect)
    } else if nr == SYS_SEND {
        Some(Syscall::Send)
    } else if nr == SYS_RECV {
        Some(Syscall::Recv)
    } else if nr == SYS_SHUTDOWN {
        Some(Syscall::Shutdown)
    } else if nr == SYS_GETSOCKNAME {
        Some(Syscall::Getsockname)
    } else if nr == SYS_GETPEERNAME {
        Some(Syscall::Getpeername)
    } else if nr == SYS_SETSOCKOPT {
        Some(Syscall::Setsockopt)
    } else if nr == SYS_GETSOCKOPT {
        Some(Syscall::Getsockopt)
    } else if nr == SYS_WAITPID {
        Some(Syscall::Waitpid)
    } else if nr == SYS_PIPE2 {
        Some(Syscall::Pipe2)
    } else if nr == SYS_UNAME {
        Some(Syscall::Uname)
    } else if nr == SYS_MOUNT {
        Some(Syscall::Mount)
    } else if nr == SYS_UMOUNT {
        Some(Syscall::Umount)
    } else if nr == SYS_MPROTECT {
        Some(Syscall::Mprotect)
    } else if nr == SYS_FSYNC {
        Some(Syscall::Fsync)
    } else if nr == SYS_FTRUNCATE {
        Some(Syscall::Ftruncate)
    } else if nr == SYS_WRITEV {
        Some(Syscall::Writev)
    } else if nr == SYS_READV {
        Some(Syscall::Readv)
    } else if nr == SYS_SCHED_YIELD {
        Some(Syscall::SchedYield)
    } else if nr == SYS_REBOOT {
        Some(Syscall::Reboot)
    } else if nr == SYS_HOSTNAME {
        Some(Syscall::Hostname)
    } else if nr == SYS_GETRANDOM {
        Some(Syscall::Getrandom)
    } else if nr == SYS_CLONE {
        Some(Syscall::Clone)
    } else if nr == SYS_GETHOSTBYNAME {
        Some(Syscall::Gethostbyname)
    } else if nr == SYS_PTHREAD_CREATE {
        Some(Syscall::PthreadCreate)
    } else {
        None
    }
}

/// The handler a syscall number selects: ENOSYS for a number the kernel
/// does not implement.
pub fn decode_syscall(nr: u64) -> (r: Result<Syscall, SyscallError>)
    ensures
        match syscall_of(nr) {
            Some(s) => r == Ok::<Syscall, SyscallError>(s),
            None => r == Err::<Syscall, SyscallError>(SyscallError::ENOSYS),
        },
{
    if nr == SYS_EXIT {
        Ok(Syscall::Exit)
    } else if nr == SYS_READ {
        Ok(Syscall::Read)
    } else if nr == SYS_WRITE {
        Ok(Syscall::Write)
    } else if nr == SYS_OPEN {
        Ok(Syscall::Open)
    } else if nr == SYS_CLOSE {
        Ok(Syscall::Close)
    } else if nr == SYS_STAT {
        Ok(Syscall::Stat)
    } else if nr == SYS_MMAP {
        Ok(Syscall::Mmap)
    } else if nr == SYS_MUNMAP {
        Ok(Syscall::Munmap)
    } else if nr == SYS_PIPE {
        Ok(Syscall::Pipe)
    } else if nr == SYS_DUP {
        Ok(Syscall::Dup)
    } else if nr == SYS_DUP2 {
        Ok(Syscall::Dup2)
    } else if nr == SYS_EXEC {
        Ok(Syscall::Exec)
    } else if nr == SYS_SPAWN {
        Ok(Syscall::Spawn)
    } else if nr == SYS_WAIT {
        Ok(Syscall::Wait)
    } else if nr == SYS_GETPID {
        Ok(Syscall::Getpid)
    } else if nr == SYS_CHDIR {
        Ok(Syscall::Chdir)
    } else if nr == SYS_IOCTL {
        Ok(Syscall::Ioctl)
    } else if nr == SYS_KILL {
        Ok(Syscall::Kill)
    } else if nr == SYS_GETCWD {
        Ok(Syscall::Getcwd)
    } else if nr == SYS_SETPGID {
        Ok(Syscall::Setpgid)
    } else if nr == SYS_GETPGID {
        Ok(Syscall::Getpgid)
    } else if nr == SYS_SETSID {
        Ok(Syscall::Setsid)
    } else if nr == SYS_CLOCK_GETTIME {
        Ok(Syscall::ClockGettime)
    } else if nr == SYS_GETDENTS {
        Ok(Syscall::Getdents)
    } else if nr == SYS_MKDIR {
        Ok(Syscall::Mkdir)
    } else if nr == SYS_UNLINK {
        Ok(Syscall::Unlink)
    } else if nr == SYS_FORK {
        Ok(Syscall::Fork)
    } else if nr == SYS_SIGACTION {
        Ok(Syscall::Sigaction)
    } else if nr == SYS_SIGRETURN {
        Ok(Syscall::Sigreturn)
    } else if nr == SYS_POLL {
        Ok(Syscall::Poll)
    } else if nr == SYS_GETPPID {
        Ok(Syscall::Getppid)
    } else if nr == SYS_GETUID {
        Ok(Syscall::Getuid)
    } else if nr == SYS_GETGID {
        Ok(Syscall::Getgid)
    } else if nr == SYS_SETUID {
        Ok(Syscall::Setuid)
    } else if nr == SYS_SETGID {
        Ok(Syscall::Setgid)
    } else if nr == SYS_GETEUID {
        Ok(Syscall::Geteuid)
    } else if nr == SYS_GETEGID {
        Ok(Syscall::Getegid)
    } else if nr == SYS_NANOSLEEP {
        Ok(Syscall::Nanosleep)
    } else if nr == SYS_TRUNCATE {
        Ok(Syscall::Truncate)
    } else if nr == SYS_FSTAT {
        Ok(Syscall::Fstat)
    } else if nr == SYS_LSEEK {
        Ok(Syscall::Lseek)
    } else if nr == SYS_ACCESS {
        Ok(Syscall::Access)
    } else if nr == SYS_CHMOD {
        Ok(Syscall::Chmod)
    } else if nr == SYS_CHOWN {
        Ok(Syscall::Chown)
    } else if nr == SYS_UMASK {
        Ok(Syscall::Umask)
    } else if nr == SYS_LINK {
        Ok(Syscall::Link)
    } else if nr == SYS_SYMLINK {
        Ok(Syscall::Symlink)
    } else if nr == SYS_READLINK {
        Ok(Syscall::Readlink)
    } else if nr == SYS_RENAME {
        Ok(Syscall::Rename)
    } else if nr == SYS_FCNTL {
        Ok(Syscall::Fcntl)
    } else if nr == SYS_ISATTY {
        Ok(Syscall::Isatty)
    } else if nr == SYS_SOCKET {
        Ok(Syscall::Socket)
    } else if nr == SYS_BIND {
        Ok(Syscall::Bind)
    } else if nr == SYS_LISTEN {
        Ok(Syscall::Listen)
    } else if nr == SYS_ACCEPT {
        Ok(Syscall::Accept)
    } else if nr == SYS_CONNECT {
        Ok(Syscall::Connect)
    } else if nr == SYS_SEND {
        Ok(Syscall::Send)
    } else if nr == SYS_RECV {
        Ok(Syscall::Recv)
    } else if nr == SYS_SHUTDOWN {
        Ok(Syscall::Shutdown)
    } else if nr == SYS_GETSOCKNAME {
        Ok(Syscall::Getsockname)
    } else if nr == SYS_GETPEERNAME {
        Ok(Syscall::Getpeername)
    } else if nr == SYS_SETSOCKOPT {
        Ok(Syscall::Setsockopt)
    } else if nr == SYS_GETSOCKOPT {
        Ok(Syscall::Getsockopt)
    } else if nr == SYS_WAITPID {
        Ok(Syscall::Waitpid)
    } else if nr == SYS_PIPE2 {
        Ok(Syscall::Pipe2)
    } else if nr == SYS_UNAME {
        Ok(Syscall::Uname)
    } else if nr == SYS_MOUNT {
        Ok(Syscall::Mount)
    } else if nr == SYS_UMOUNT {
        Ok(Syscall::Umount)
    } else if nr == SYS_MPROTECT {
        Ok(Syscall::Mprotect)
    } else if nr == SYS_FSYNC {
        Ok(Syscall::Fsync)
    } else if nr == SYS_FTRUNCATE {
        Ok(Syscall::Ftruncate)
    } else if nr == SYS_WRITEV {
        Ok(Syscall::Writev)
    } else if nr == SYS_READV {
        Ok(Syscall::Readv)
    } else if nr == SYS_SCHED_YIELD {
        Ok(Syscall::SchedYield)
    } else if nr == SYS_REBOOT {
        Ok(Syscall::Reboot)
    } else if nr == SYS_HOSTNAME {
        Ok(Syscall::Hostname)
    } else if nr == SYS_GETRANDOM {
        Ok(Syscall::Getrandom)
    } else if nr == SYS_CLONE {
        Ok(Syscall::Clone)
    } else if nr == SYS_GETHOSTBYNAME {
        Ok(Syscall::Gethostbyname)
    } else if nr == SYS_PTHREAD_CREATE {
        Ok(Syscall::PthreadCreate)
    } else {
        Err(SyscallError::ENOSYS)
    }
}

} // verus!
