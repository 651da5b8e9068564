//! The self-contained parts of the syscall layer: error translation, user
//! pointer validation and the syscalls whose answer does not depend on
//! kernel state.

use vstd::prelude::*;
use crate::syscall::error::{SyscallError, SyscallResult};
use crate::vfs::inode::VfsError;
use crate::task::scheduler::{ContextSwitch, Scheduler};
use crate::task::signal::SignalState;
use crate::libc_lite::{PollFd, POLLIN, POLLOUT, POLLNVAL, AF_INET, INADDR_LOOPBACK};

verus! {

/// Highest user-space address (canonical lower half).
pub const USER_SPACE_MAX: u64 = 0x0000_7FFF_FFFF_FFFF;

/// The syscall error a VFS error is reported as.
pub open spec fn vfs_errno(err: VfsError) -> SyscallError {
    match err {
        VfsError::NotFound => SyscallError::ENOENT,
        VfsError::PermissionDenied => SyscallError::EACCES,
        VfsError::NotADirectory => SyscallError::ENOTDIR,
        VfsError::IsADirectory => SyscallError::EISDIR,
        VfsError::AlreadyExists => SyscallError::EEXIST,
        VfsError::NoSpace => SyscallError::ENOSPC,
        VfsError::InvalidArgument => SyscallError::EINVAL,
        VfsError::BadFileDescriptor => SyscallError::EBADF,
        VfsError::TooManyOpenFiles => SyscallError::EMFILE,
        VfsError::BrokenPipe => SyscallError::EIO,
        VfsError::WouldBlock => SyscallError::EAGAIN,
        VfsError::IoError => SyscallError::EIO,
        VfsError::NotImplemented => SyscallError::EIO,
    }
}

/// Translate a VFS error into the syscall error user space sees.
pub fn map_vfs_error(err: VfsError) -> (r: SyscallError)
    ensures
        r == vfs_errno(err),
{
    match err {
        VfsError::NotFound => SyscallError::ENOENT,
        VfsError::PermissionDenied => SyscallError::EACCES,
        VfsError::NotADirectory => SyscallError::ENOTDIR,
        VfsError::IsADirectory => SyscallError::EISDIR,
        VfsError::AlreadyExists => SyscallError::EEXIST,
        VfsError::NoSpace => SyscallError::ENOSPC,
        VfsError::InvalidArgument => SyscallError::EINVAL,
        VfsError::BadFileDescriptor => SyscallError::EBADF,
        VfsError::TooManyOpenFiles => SyscallError::EMFILE,
        VfsError::BrokenPipe => SyscallError::EIO,
        VfsError::WouldBlock => SyscallError::EAGAIN,
        VfsError::IoError | VfsError::NotImplemented => SyscallError::EIO,
    }
}

/// A user buffer `[ptr, ptr + len)` is acceptable: non-null and entirely
/// below the top of user space.
pub open spec fn user_range_ok(ptr: u64, len: usize) -> bool {
    ptr != 0 && ptr + len <= USER_SPACE_MAX
}

/// Check that a user buffer lies in user space; EFAULT otherwise.
pub fn validate_user_ptr(ptr: u64, len: usize) -> (r: Result<(), SyscallError>)
    ensures
        r is Ok <==> user_range_ok(ptr, len),
        r is Err ==> r == Err::<(), SyscallError>(SyscallError::EFAULT),
{
    if ptr == 0 {
        return Err(SyscallError::EFAULT);
    }
    if ptr > USER_SPACE_MAX {
        return Err(SyscallError::EFAULT);
    }
    let end = match ptr.checked_add(len as u64) {
        Some(e) => e,
        None => return Err(SyscallError::EFAULT),
    };
    if end > USER_SPACE_MAX {
        return Err(SyscallError::EFAULT);
    }
    Ok(())
}

/// Return from a signal handler. Restoring the saved context is not wired
/// yet, so this always succeeds with 0.
pub fn sys_sigreturn() -> (r: SyscallResult)
    ensures
        r == Ok::<i64, SyscallError>(0),
{
    Ok(0)
}

/// `truncate` is not implemented: always ENOSYS.
pub fn sys_truncate(_path: u64, _length: u64) -> (r: SyscallResult)
    ensures
        r == Err::<i64, SyscallError>(SyscallError::ENOSYS),
{
    Err(SyscallError::ENOSYS)
}

/// `link` is not implemented: always ENOSYS.
pub fn sys_link(_old: u64, _new: u64) -> (r: SyscallResult)
    ensures
        r == Err::<i64, SyscallError>(SyscallError::ENOSYS),
{
    Err(SyscallError::ENOSYS)
}

/// `symlink` is not implemented: always ENOSYS.
pub fn sys_symlink(_target: u64, _linkpath: u64) -> (r: SyscallResult)
    ensures
        r == Err::<i64, SyscallError>(SyscallError::ENOSYS),
{
    Err(SyscallError::ENOSYS)
}

/// `readlink` is not implemented: always ENOSYS.
pub fn sys_readlink(_path: u64, _buf: u64, _bufsiz: usize) -> (r: SyscallResult)
    ensures
        r == Err::<i64, SyscallError>(SyscallError::ENOSYS),
{
    Err(SyscallError::ENOSYS)
}

/// Descriptors 0, 1 and 2 are terminals; anything else is ENOTTY.
pub fn sys_isatty(fd: i32) -> (r: SyscallResult)
    ensures
        0 <= fd <= 2 ==> r == Ok::<i64, SyscallError>(1),
        !(0 <= fd <= 2) ==> r == Err::<i64, SyscallError>(SyscallError::ENOTTY),
{
    if fd >= 0 && fd <= 2 {
        Ok(1)
    } else {
        Err(SyscallError::ENOTTY)
    }
}

/// `mprotect` is accepted and ignored: always 0.
pub fn sys_mprotect(_addr: u64, _len: usize, _prot: u32) -> (r: SyscallResult)
    ensures
        r == Ok::<i64, SyscallError>(0),
{
    Ok(0)
}

/// `ftruncate` is accepted and ignored: always 0.
pub fn sys_ftruncate(_fd: i32, _length: u64) -> (r: SyscallResult)
    ensures
        r == Ok::<i64, SyscallError>(0),
{
    Ok(0)
}


/// Process id of the calling (current) task.
pub fn sys_getpid<F: Clone>(sched: &Scheduler<F>) -> (r: SyscallResult)
    requires
        sched.wf(),
    ensures
        r == Ok::<i64, SyscallError>(
            (match sched.tasks()[sched.cur() as int] { Some(t) => t.pid, None => 0 }) as i64),
{
    Ok(sched.current_pid() as i64)
}

/// Parent process id of the calling (current) task.
pub fn sys_getppid<F: Clone>(sched: &Scheduler<F>) -> (r: SyscallResult)
    requires
        sched.wf(),
    ensures
        r == Ok::<i64, SyscallError>(
            (match sched.tasks()[sched.cur() as int] { Some(t) => t.parent_pid, None => 0 }) as i64),
{
    Ok(sched.current_parent_pid() as i64)
}

/// Give up the processor: reschedule exactly as a voluntary yield does and
/// return 0, along with the context switch for the caller to perform.
pub fn sys_sched_yield<F: Clone>(sched: &mut Scheduler<F>) -> (r: (SyscallResult, Option<ContextSwitch>))
    requires
        old(sched).wf(),
        old(sched).tasks()[old(sched).cur() as int] is Some,
    ensures
        final(sched).wf(),
        r.0 == Ok::<i64, SyscallError>(0),
        Scheduler::<F>::schedule_post(old(sched).tasks(), old(sched).cur(), final(sched).tasks(),
            final(sched).cur(), final(sched).ticks(), r.1),
{
    let sw = sched.yield_current();
    (Ok(0), sw)
}

/// Socket options are accepted and ignored.
pub fn sys_setsockopt(_fd: i32, _level: i32, _optname: i32, _optval: u64, _optlen: u32) -> (r: SyscallResult)
    ensures
        r == Ok::<i64, SyscallError>(0),
{
    Ok(0)
}

/// Reading socket options is not supported.
pub fn sys_getsockopt(_fd: i32, _level: i32, _optname: i32, _optval: u64, _optlen: u64) -> (r: SyscallResult)
    ensures
        r == Err::<i64, SyscallError>(SyscallError::ENOSYS),
{
    Err(SyscallError::ENOSYS)
}

/// Kernel representation of a signal action.
#[derive(Debug, Clone, Copy, PartialEq, Eq, Structural)]
pub struct KSigAction {
    /// SIG_DFL, SIG_IGN or the handler's address.
    pub handler: u64,
    pub flags: u32,
    pub mask: u32,
}

/// Bytes a `KSigAction` occupies in user memory.
pub const KSIGACTION_SIZE: usize = 16;

/// Signals whose action may be changed or queried: 1..=31 except SIGKILL
/// (9) and SIGSTOP (19).
pub open spec fn sigaction_signum_ok(signum: i32) -> bool {
    1 <= signum <= 31 && signum != 9 && signum != 19
}

/// Install or query a signal handler of the current task. `act_ptr` and
/// `oldact_ptr` are the user pointers (0 = absent), `act` the record read
/// from `act_ptr`. On success the previous action is returned when
/// `oldact_ptr` is set, for the caller to copy out; the new handler is
/// installed when `act_ptr` is set.
pub fn sys_sigaction(
    signals: &mut SignalState,
    signum: i32,
    act_ptr: u64,
    act: KSigAction,
    oldact_ptr: u64,
) -> (r: Result<Option<KSigAction>, SyscallError>)
    ensures
        !sigaction_signum_ok(signum) ==> r == Err::<Option<KSigAction>, SyscallError>(SyscallError::EINVAL),
        sigaction_signum_ok(signum) && ((oldact_ptr != 0 && !user_range_ok(oldact_ptr, KSIGACTION_SIZE))
            || (act_ptr != 0 && !user_range_ok(act_ptr, KSIGACTION_SIZE)))
            ==> r == Err::<Option<KSigAction>, SyscallError>(SyscallError::EFAULT),
        r is Err ==> *final(signals) == *old(signals),
        sigaction_signum_ok(signum) && (oldact_ptr == 0 || user_range_ok(oldact_ptr, KSIGACTION_SIZE))
            && (act_ptr == 0 || user_range_ok(act_ptr, KSIGACTION_SIZE)) ==> r is Ok,
        r is Ok ==> {
            &&& sigaction_signum_ok(signum)
            &&& (oldact_ptr == 0 || user_range_ok(oldact_ptr, KSIGACTION_SIZE))
            &&& (act_ptr == 0 || user_range_ok(act_ptr, KSIGACTION_SIZE))
            &&& r == Ok::<Option<KSigAction>, SyscallError>(if oldact_ptr != 0 {
                    Some(KSigAction { handler: old(signals).handlers@[signum as int], flags: 0, mask: 0 })
                } else {
                    None
                })
            &&& final(signals).pending == old(signals).pending
            &&& final(signals).blocked == old(signals).blocked
            &&& final(signals).handlers@ == (if act_ptr != 0 {
                    old(signals).handlers@.update(signum as int, act.handler)
                } else {
                    old(signals).handlers@
                })
        },
{
    if signum <= 0 || signum > 31 {
        return Err(SyscallError::EINVAL);
    }
    if signum == 9 || signum == 19 {
        return Err(SyscallError::EINVAL);
    }
    if oldact_ptr != 0 {
        if validate_user_ptr(oldact_ptr, KSIGACTION_SIZE).is_err() {
            return Err(SyscallError::EFAULT);
        }
    }
    if act_ptr != 0 {
        if validate_user_ptr(act_ptr, KSIGACTION_SIZE).is_err() {
            return Err(SyscallError::EFAULT);
        }
    }
    let sig = signum as u8;
    let old_action = if oldact_ptr != 0 {
        Some(KSigAction { handler: signals.get_handler(sig), flags: 0, mask: 0 })
    } else {
        None
    };
    if act_ptr != 0 {
        signals.set_handler(sig, act.handler);
    }
    Ok(old_action)
}

/// `lseek` whence: from the start.
pub const SEEK_SET: i32 = 0;
/// `lseek` whence: from the current offset.
pub const SEEK_CUR: i32 = 1;
/// `lseek` whence: from the end of the file.
pub const SEEK_END: i32 = 2;

/// Where a seek lands, or `None` for an unknown whence or a negative target.
pub open spec fn seek_target(current: u64, size: u64, offset: i64, whence: i32) -> Option<int> {
    let base: int = if whence == SEEK_SET { 0 } else if whence == SEEK_CUR { current as int } else { size as int };
    if whence != SEEK_SET && whence != SEEK_CUR && whence != SEEK_END {
        None
    } else if base + offset < 0 {
        None
    } else {
        Some(base + offset)
    }
}

/// The new offset of an `lseek` on a file at offset `current` whose size is
/// `size`: EINVAL for an unknown whence or a target before the start.
pub fn lseek_offset(current: u64, size: u64, offset: i64, whence: i32) -> (r: Result<u64, SyscallError>)
    requires
        current <= i64::MAX,
        size <= i64::MAX,
        whence == SEEK_CUR ==> current + offset <= i64::MAX,
        whence == SEEK_END ==> size + offset <= i64::MAX,
    ensures
        match seek_target(current, size, offset, whence) {
            Some(t) => r == Ok::<u64, SyscallError>(t as u64),
            None => r == Err::<u64, SyscallError>(SyscallError::EINVAL),
        },
{
    if whence == SEEK_SET {
        if offset < 0 {
            return Err(SyscallError::EINVAL);
        }
        Ok(offset as u64)
    } else if whence == SEEK_CUR {
        let t: i64 = current as i64 + offset;
        if t < 0 {
            return Err(SyscallError::EINVAL);
        }
        Ok(t as u64)
    } else if whence == SEEK_END {
        let t: i64 = size as i64 + offset;
        if t < 0 {
            return Err(SyscallError::EINVAL);
        }
        Ok(t as u64)
    } else {
        Err(SyscallError::EINVAL)
    }
}

/// The `revents` a poll entry gets: POLLNVAL for an fd that is not open,
/// otherwise the requested POLLIN / POLLOUT bits (files and pipes are always
/// ready); 0 for a negative fd, which is skipped.
pub open spec fn poll_revents(fd: i32, is_open: bool, events: i16) -> i16 {
    if fd < 0 {
        0
    } else if !is_open {
        POLLNVAL
    } else {
        (events & POLLIN) | (events & POLLOUT)
    }
}

/// Entries of `fds[..n]` that report something.
pub open spec fn ready_count(fds: Seq<PollFd>, n: int) -> nat
    decreases n,
{
    if n <= 0 {
        0
    } else {
        ready_count(fds, n - 1) + (if fds[n - 1].revents != 0 { 1nat } else { 0nat })
    }
}

/// Check each entry once and fill in its `revents`; `is_open[i]` says
/// whether `fds[i].fd` is an open descriptor of the caller. Returns the
/// number of entries that report something; EINVAL for more than 256.
pub fn sys_poll(fds: &mut Vec<PollFd>, is_open: &Vec<bool>) -> (r: SyscallResult)
    requires
        old(fds).len() == is_open.len(),
    ensures
        old(fds).len() > 256 ==> r == Err::<i64, SyscallError>(SyscallError::EINVAL) && final(fds)@ == old(fds)@,
        old(fds).len() <= 256 ==> {
            &&& final(fds).len() == old(fds).len()
            &&& forall|i: int| 0 <= i < old(fds).len() ==> #[trigger] final(fds)@[i] == (PollFd {
                    revents: poll_revents(old(fds)@[i].fd, is_open@[i], old(fds)@[i].events),
                    ..old(fds)@[i]
                })
            &&& r == Ok::<i64, SyscallError>(ready_count(final(fds)@, final(fds).len() as int) as i64)
        },
{
    let n = fds.len();
    if n > 256 {
        return Err(SyscallError::EINVAL);
    }
    let mut ready: i64 = 0;
    let mut i: usize = 0;
    while i < n
        invariant
            n == fds.len(),
            n <= 256,
            n == is_open.len(),
            0 <= i <= n,
            forall|j: int| i <= j < n ==> #[trigger] fds@[j] == old(fds)@[j],
            forall|j: int| 0 <= j < i ==> #[trigger] fds@[j] == (PollFd {
                    revents: poll_revents(old(fds)@[j].fd, is_open@[j], old(fds)@[j].events),
                    ..old(fds)@[j]
                }),
            ready == ready_count(fds@, i as int),
            ready <= i,
        decreases n - i,
    {
        let e = fds[i];
        let rev: i16 = if e.fd < 0 {
            0
        } else if !is_open[i] {
            POLLNVAL
        } else {
            (e.events & POLLIN) | (e.events & POLLOUT)
        };
        let ghost before = fds@;
        fds.set(i, PollFd { fd: e.fd, events: e.events, revents: rev });
        proof {
            assert forall|k: int| 0 <= k < i implies fds@[k] == before[k] by {}
            lemma_ready_count_prefix(before, fds@, i as int);
        }
        if rev != 0 {
            ready = ready + 1;
        }
        i = i + 1;
    }
    Ok(ready)
}

/// `ready_count` of a prefix depends only on the entries in it.
proof fn lemma_ready_count_prefix(a: Seq<PollFd>, b: Seq<PollFd>, n: int)
    requires
        0 <= n <= a.len(),
        n <= b.len(),
        forall|k: int| 0 <= k < n ==> a[k] == b[k],
    ensures
        ready_count(a, n) == ready_count(b, n),
    decreases n,
{
    if n > 0 {
        lemma_ready_count_prefix(a, b, n - 1);
    }
}

/// Port and address (both in host order) of an IPv4 socket address given
/// as the bytes user space passed; EINVAL when it is shorter than 8 bytes
/// or not AF_INET. The family is little-endian, port and address big-endian.
pub open spec fn sockaddr_in_of(b: Seq<u8>) -> Option<(u16, u32)> {
    if b.len() < 8 || (b[0] as int) + 256 * (b[1] as int) != AF_INET as int {
        None
    } else {
        Some((
            ((b[2] as int) * 256 + (b[3] as int)) as u16,
            ((b[4] as int) * 16777216 + (b[5] as int) * 65536 + (b[6] as int) * 256 + (b[7] as int)) as u32,
        ))
    }
}

/// Decode a user-supplied `sockaddr_in`.
pub fn parse_sockaddr_in(b: &[u8]) -> (r: Result<(u16, u32), SyscallError>)
    ensures
        match sockaddr_in_of(b@) {
            Some(v) => r == Ok::<(u16, u32), SyscallError>(v),
            None => r == Err::<(u16, u32), SyscallError>(SyscallError::EINVAL),
        },
{
    if b.len() < 8 {
        return Err(SyscallError::EINVAL);
    }
    let family: u32 = b[0] as u32 + 256 * (b[1] as u32);
    if family != 2 {
        return Err(SyscallError::EINVAL);
    }
    let port: u16 = (b[2] as u16) * 256 + (b[3] as u16);
    let ip: u32 = (b[4] as u32) * 16777216 + (b[5] as u32) * 65536 + (b[6] as u32) * 256 + (b[7] as u32);
    Ok((port, ip))
}

/// The 8 bytes written back for a socket name: family (little-endian),
/// port and address (big-endian).
pub open spec fn sockaddr_in_bytes(port: u16, ip: u32) -> Seq<u8> {
    seq![
        2u8, 0u8,
        (port / 256) as u8, (port % 256) as u8,
        (ip / 16777216) as u8, ((ip / 65536) % 256) as u8, ((ip / 256) % 256) as u8, (ip % 256) as u8,
    ]
}

/// Encode a socket name for user space.
pub fn encode_sockaddr_in(port: u16, ip: u32) -> (r: [u8; 8])
    ensures
        r@ == sockaddr_in_bytes(port, ip),
        sockaddr_in_of(r@) == Some((port, ip)),
{
    let r: [u8; 8] = [
        2u8, 0u8,
        (port / 256) as u8, (port % 256) as u8,
        (ip / 16777216) as u8, ((ip / 65536) % 256) as u8, ((ip / 256) % 256) as u8, (ip % 256) as u8,
    ];
    assert(r@ =~= sockaddr_in_bytes(port, ip));
    r
}

/// What `write_sockaddr_in` does for a caller whose length word holds
/// `in_len`: the bytes to copy to the address buffer (`None` when the
/// buffer is absent or too short) and the length to store back (8).
pub fn sockaddr_out(addr_present: bool, in_len: u32, port: u16, ip: u32) -> (r: (Option<[u8; 8]>, u32))
    ensures
        r.1 == 8,
        (addr_present && in_len >= 8) ==> (r.0 matches Some(b) && b@ == sockaddr_in_bytes(port, ip)),
        !(addr_present && in_len >= 8) ==> r.0 is None,
{
    if addr_present && in_len >= 8 {
        (Some(encode_sockaddr_in(port, ip)), 8)
    } else {
        (None, 8)
    }
}

/// `bind` accepts only the wildcard and loopback addresses.
pub fn bind_address_ok(ip: u32) -> (r: Result<(), SyscallError>)
    ensures
        (ip == 0 || ip == INADDR_LOOPBACK) <==> r is Ok,
        r is Err ==> r == Err::<(), SyscallError>(SyscallError::EADDRINUSE),
{
    if ip != 0 && ip != INADDR_LOOPBACK {
        return Err(SyscallError::EADDRINUSE);
    }
    Ok(())
}

/// Bytes of the `uname` record: five NUL-padded 65-byte fields.
pub const UTSNAME_SIZE: usize = 325;

/// Field `k` of the `uname` record: the system ("RacOS"), node ("racos"),
/// release ("0.1.0"), version ("#1 RacOS") and machine ("x86_64") names.
pub open spec fn uts_field(k: int) -> Seq<u8> {
    if k == 0 {
        seq![82u8, 97u8, 99u8, 79u8, 83u8]
    } else if k == 1 {
        seq![114u8, 97u8, 99u8, 111u8, 115u8]
    } else if k == 2 {
        seq![48u8, 46u8, 49u8, 46u8, 48u8]
    } else if k == 3 {
        seq![35u8, 49u8, 32u8, 82u8, 97u8, 99u8, 79u8, 83u8]
    } else {
        seq![120u8, 56u8, 54u8, 95u8, 54u8, 52u8]
    }
}

/// Byte `j` of the `uname` record.
pub open spec fn uts_byte(j: int) -> u8 {
    let f = uts_field(j / 65);
    if j % 65 < f.len() { f[j % 65] } else { 0u8 }
}

/// Copy `f` into `buf` at `at`.
fn put_field(buf: &mut [u8; 325], at: usize, f: &[u8])
    requires
        at + f@.len() <= 325,
    ensures
        forall|j: int| 0 <= j < 325 ==> #[trigger] final(buf)@[j]
            == (if at <= j < at + f@.len() { f@[j - at] } else { old(buf)@[j] }),
{
    let ghost b0 = buf@;
    let mut k: usize = 0;
    while k < f.len()
        invariant
            at + f@.len() <= 325,
            k <= f@.len(),
            forall|j: int| 0 <= j < 325 ==> #[trigger] buf@[j] == (if at <= j < at + k { f@[j - at] } else { b0[j] }),
        decreases f@.len() - k,
    {
        buf[at + k] = f[k];
        k = k + 1;
    }
}

/// `uname`: EFAULT unless the 325-byte record fits at `buf` in user space;
/// else the record to copy there (see [`uts_byte`]).
pub fn sys_uname(buf: u64) -> (r: Result<[u8; 325], SyscallError>)
    ensures
        !user_range_ok(buf, UTSNAME_SIZE) ==> r == Err::<[u8; 325], SyscallError>(SyscallError::EFAULT),
        user_range_ok(buf, UTSNAME_SIZE) ==> (r matches Ok(rec) && forall|j: int| 0 <= j < 325 ==> #[trigger] rec@[j] == uts_byte(j)),
{
    match validate_user_ptr(buf, UTSNAME_SIZE) {
        Ok(()) => {}
        Err(e) => return Err(e),
    }
    let mut rec = [0u8; 325];
    let f0: [u8; 5] = [82, 97, 99, 79, 83];
    let f1: [u8; 5] = [114, 97, 99, 111, 115];
    let f2: [u8; 5] = [48, 46, 49, 46, 48];
    let f3: [u8; 8] = [35, 49, 32, 82, 97, 99, 79, 83];
    let f4: [u8; 6] = [120, 56, 54, 95, 54, 52];
    let ghost z = rec@;
    assert(forall|j: int| 0 <= j < 325 ==> z[j] == 0u8);
    put_field(&mut rec, 0, &f0);
    put_field(&mut rec, 65, &f1);
    put_field(&mut rec, 130, &f2);
    put_field(&mut rec, 195, &f3);
    put_field(&mut rec, 260, &f4);
    proof {
        assert(f0@ =~= uts_field(0));
        assert(f1@ =~= uts_field(1));
        assert(f2@ =~= uts_field(2));
        assert(f3@ =~= uts_field(3));
        assert(f4@ =~= uts_field(4));
        assert forall|j: int| 0 <= j < 325 implies #[trigger] rec@[j] == uts_byte(j) by {
            let k = j / 65;
            assert(0 <= k < 5);
            assert(j == 65 * k + j % 65);
        }
    }
    Ok(rec)
}

} // verus!
