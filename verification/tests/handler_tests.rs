use lib::libc_lite::{PollFd, POLLIN, POLLNVAL, POLLOUT};
use lib::syscall::error::SyscallError;
use lib::syscall::handlers::{
    bind_address_ok, encode_sockaddr_in, lseek_offset, parse_sockaddr_in, sockaddr_out, sys_getpid,
    sys_getppid, sys_getsockopt, sys_poll, sys_sched_yield, sys_setsockopt, sys_sigaction, KSigAction,
    SEEK_CUR, SEEK_END, SEEK_SET,
};
use lib::task::scheduler::Scheduler;
use lib::task::signal::SignalState;
use lib::task::task::{Pid, Task, TaskState};

#[test]
fn sigaction_rejects_bad_signals() {
    let mut s = SignalState::new();
    let act = KSigAction { handler: 0x4000, flags: 0, mask: 0 };
    for sig in [0, -1, 9, 19, 32] {
        assert_eq!(sys_sigaction(&mut s, sig, 0x1000, act, 0), Err(SyscallError::EINVAL));
    }
    assert_eq!(sys_sigaction(&mut s, 2, 0x1000, act, 0x8000_0000_0000), Err(SyscallError::EFAULT));
    assert_eq!(sys_sigaction(&mut s, 2, 0x8000_0000_0000, act, 0), Err(SyscallError::EFAULT));
    assert_eq!(s.get_handler(2), 0);
}

#[test]
fn sigaction_installs_and_reports_old_handler() {
    let mut s = SignalState::new();
    let act = KSigAction { handler: 0x4000, flags: 7, mask: 3 };
    assert_eq!(sys_sigaction(&mut s, 2, 0x1000, act, 0), Ok(None));
    assert_eq!(s.get_handler(2), 0x4000);
    let act2 = KSigAction { handler: 1, flags: 0, mask: 0 };
    assert_eq!(
        sys_sigaction(&mut s, 2, 0x1000, act2, 0x2000),
        Ok(Some(KSigAction { handler: 0x4000, flags: 0, mask: 0 }))
    );
    assert_eq!(s.get_handler(2), 1);
    assert_eq!(
        sys_sigaction(&mut s, 2, 0, act, 0x2000),
        Ok(Some(KSigAction { handler: 1, flags: 0, mask: 0 }))
    );
    assert_eq!(s.get_handler(2), 1);
}

#[test]
fn lseek_targets() {
    assert_eq!(lseek_offset(10, 100, 5, SEEK_SET), Ok(5));
    assert_eq!(lseek_offset(10, 100, -1, SEEK_SET), Err(SyscallError::EINVAL));
    assert_eq!(lseek_offset(10, 100, 5, SEEK_CUR), Ok(15));
    assert_eq!(lseek_offset(10, 100, -11, SEEK_CUR), Err(SyscallError::EINVAL));
    assert_eq!(lseek_offset(10, 100, -100, SEEK_END), Ok(0));
    assert_eq!(lseek_offset(10, 100, 20, SEEK_END), Ok(120));
    assert_eq!(lseek_offset(10, 100, 0, 7), Err(SyscallError::EINVAL));
}

#[test]
fn poll_marks_entries() {
    let mut fds = vec![
        PollFd { fd: 0, events: POLLIN, revents: 99 },
        PollFd { fd: 1, events: POLLIN | POLLOUT, revents: 0 },
        PollFd { fd: -1, events: POLLIN, revents: 5 },
        PollFd { fd: 7, events: POLLIN, revents: 0 },
        PollFd { fd: 2, events: 0, revents: 0 },
    ];
    let open = vec![true, true, true, false, true];
    assert_eq!(sys_poll(&mut fds, &open), Ok(3));
    assert_eq!(fds[0].revents, POLLIN);
    assert_eq!(fds[1].revents, POLLIN | POLLOUT);
    assert_eq!(fds[2].revents, 0);
    assert_eq!(fds[3].revents, POLLNVAL);
    assert_eq!(fds[4].revents, 0);
    let mut many = vec![PollFd { fd: 0, events: 0, revents: 0 }; 257];
    let open_many = vec![true; 257];
    assert_eq!(sys_poll(&mut many, &open_many), Err(SyscallError::EINVAL));
}

#[test]
fn sockaddr_parsing() {
    let b = [2u8, 0, 0x1F, 0x90, 127, 0, 0, 1];
    assert_eq!(parse_sockaddr_in(&b), Ok((8080, 0x7F00_0001)));
    assert_eq!(parse_sockaddr_in(&b[..7]), Err(SyscallError::EINVAL));
    let bad = [10u8, 0, 0x1F, 0x90, 127, 0, 0, 1];
    assert_eq!(parse_sockaddr_in(&bad), Err(SyscallError::EINVAL));
    let e = encode_sockaddr_in(8080, 0x7F00_0001);
    assert_eq!(e, b);
    assert_eq!(parse_sockaddr_in(&e), Ok((8080, 0x7F00_0001)));
    assert_eq!(sockaddr_out(true, 16, 80, 1), (Some(encode_sockaddr_in(80, 1)), 8));
    assert_eq!(sockaddr_out(true, 4, 80, 1), (None, 8));
    assert_eq!(sockaddr_out(false, 16, 80, 1), (None, 8));
}

#[test]
fn bind_accepts_wildcard_and_loopback_only() {
    assert_eq!(bind_address_ok(0), Ok(()));
    assert_eq!(bind_address_ok(0x7F00_0001), Ok(()));
    assert_eq!(bind_address_ok(0x0A00_0001), Err(SyscallError::EADDRINUSE));
}

#[test]
fn socket_options() {
    assert_eq!(sys_setsockopt(3, 1, 2, 0x1000, 4), Ok(0));
    assert_eq!(sys_getsockopt(3, 1, 2, 0x1000, 0x2000), Err(SyscallError::ENOSYS));
}

fn ready_task(pid: Pid, parent: Pid) -> Task<()> {
    let mut next = pid;
    let mut task = Task::idle(&mut next);
    task.state = TaskState::Ready;
    task.parent_pid = parent;
    task
}

#[test]
fn pid_queries_and_yield() {
    let mut s: Scheduler<()> = Scheduler::new();
    let mut next: Pid = 0;
    s.init(&mut next);
    assert_eq!(sys_getpid(&s), Ok(0));
    assert_eq!(sys_getppid(&s), Ok(0));
    s.spawn(ready_task(100, 0)).unwrap();
    let (r, sw) = sys_sched_yield(&mut s);
    assert_eq!(r, Ok(0));
    let sw = sw.unwrap();
    assert_eq!((sw.from, sw.to), (0, 1));
    assert_eq!(sys_getpid(&s), Ok(100));
    assert_eq!(sys_getppid(&s), Ok(0));
}
