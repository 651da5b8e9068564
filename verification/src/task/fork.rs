//! The child records `fork` and `clone` build from the calling task.

use vstd::prelude::*;
use crate::syscall::error::SyscallError;
use crate::task::context::{zero_context, TaskContext};
use crate::task::signal::{SignalState, SIG_DFL};
use crate::task::task::{Pid, Task, TaskState, FRAME_SIZE, KERNEL_STACK_GUARD_PAGES, KERNEL_STACK_SIZE};
use crate::vfs::file::MAX_FDS;

verus! {

/// Bytes of the syscall return frame at the top of a kernel stack, which a
/// child starts by returning through.
pub const SYSRET_FRAME_SIZE: u64 = 80;
/// `clone`: share the address space.
pub const CLONE_VM: u32 = 0x0000_0100;
/// `clone`: join the caller's thread group.
pub const CLONE_THREAD: u32 = 0x0001_0000;

/// The child of `parent` whose record is `c`: pid `pid`, page table `pt`,
/// the kernel stack after the guard page of the allocation at `base`, and
/// a first context that enters `rip` with the stack pointer at the copied
/// return frame; it starts Created, with no exit status, no pending or
/// blocked signal and every handler the default, a copy of every open
/// descriptor, and the parent's group, session, credentials, umask, name
/// and working directory.
pub open spec fn forked_from<F: Clone>(parent: Task<F>, c: Task<F>, pid: Pid, pt: u64, base: u64, rip: u64) -> bool {
    let stack_base = base + KERNEL_STACK_GUARD_PAGES * FRAME_SIZE;
    &&& c.pid == pid
    &&& c.parent_pid == parent.pid
    &&& c.state == TaskState::Created
    &&& c.context == (TaskContext { rip: rip, rsp: (stack_base + KERNEL_STACK_SIZE - SYSRET_FRAME_SIZE) as u64, ..zero_context() })
    &&& c.kernel_stack_base == stack_base
    &&& c.page_table_phys == pt
    &&& c.exit_status == 0
    &&& c.signals.pending == 0
    &&& c.signals.blocked == 0
    &&& forall|i: int| 0 <= i < 32 ==> c.signals.handlers@[i] == SIG_DFL
    &&& c.fd_table.view().len() == MAX_FDS
    &&& forall|i: int| 0 <= i < MAX_FDS && i < parent.fd_table.view().len() ==>
        (#[trigger] c.fd_table.view()[i] is Some) == parent.fd_table.view()[i] is Some
        && (parent.fd_table.view()[i] is Some ==> cloned::<F>(parent.fd_table.view()[i]->0, c.fd_table.view()[i]->0))
    &&& forall|i: int| parent.fd_table.view().len() <= i < MAX_FDS ==> #[trigger] c.fd_table.view()[i] is None
    &&& c.pgid == parent.pgid
    &&& c.session_id == parent.session_id
    &&& c.creds == parent.creds
    &&& c.umask == parent.umask
    &&& c.name == parent.name
    &&& c.name_len == parent.name_len
    &&& c.cwd == parent.cwd
    &&& c.cwd_len == parent.cwd_len
    &&& !c.in_signal_handler
    &&& c.saved_signal_frame_ptr == 0
}

/// Build the child record (see [`forked_from`]).
fn child_of<F: Clone>(parent: &Task<F>, pid: Pid, pt: u64, base: u64, rip: u64) -> (c: Task<F>)
    requires
        base + KERNEL_STACK_GUARD_PAGES * FRAME_SIZE + KERNEL_STACK_SIZE <= u64::MAX,
    ensures
        forked_from(*parent, c, pid, pt, base, rip),
{
    let stack_base = base + (KERNEL_STACK_GUARD_PAGES * FRAME_SIZE) as u64;
    let stack_top = stack_base + KERNEL_STACK_SIZE as u64;
    let mut ctx = TaskContext::new();
    ctx.rip = rip;
    ctx.rsp = stack_top - SYSRET_FRAME_SIZE;
    Task {
        pid,
        parent_pid: parent.pid,
        state: TaskState::Created,
        context: ctx,
        kernel_stack_base: stack_base,
        page_table_phys: pt,
        exit_status: 0,
        signals: SignalState::new(),
        fd_table: parent.fd_table.clone_fds(),
        pgid: parent.pgid,
        session_id: parent.session_id,
        creds: parent.creds,
        umask: parent.umask,
        name: parent.name,
        name_len: parent.name_len,
        cwd: parent.cwd,
        cwd_len: parent.cwd_len,
        in_signal_handler: false,
        saved_signal_frame_ptr: 0,
    }
}

/// The child `fork` makes of `parent`: EPERM for a kernel task (no page
/// table of its own); else the child record with pid `child_pid`, the
/// cloned address space `child_pt`, the kernel stack allocated at
/// `alloc_base` and `return_rip` as where it first runs.
pub fn fork_child<F: Clone>(parent: &Task<F>, child_pid: Pid, child_pt: u64, alloc_base: u64, return_rip: u64)
    -> (r: Result<Task<F>, SyscallError>)
    requires
        alloc_base + KERNEL_STACK_GUARD_PAGES * FRAME_SIZE + KERNEL_STACK_SIZE <= u64::MAX,
    ensures
        parent.page_table_phys == 0 ==> r == Err::<Task<F>, SyscallError>(SyscallError::EPERM),
        parent.page_table_phys != 0 ==> (r matches Ok(c) && forked_from(*parent, c, child_pid, child_pt, alloc_base, return_rip)),
{
    if parent.page_table_phys == 0 {
        return Err(SyscallError::EPERM);
    }
    Ok(child_of(parent, child_pid, child_pt, alloc_base, return_rip))
}

/// Does a `clone` with `flags` share the caller's address space?
pub fn clone_shares_vm(flags: u32) -> (r: bool)
    ensures
        r == (flags & CLONE_VM != 0),
{
    flags & CLONE_VM != 0
}

/// The child `clone` makes of `parent`, and the user stack pointer its
/// copied return frame is given (None: the caller's): EPERM for a kernel
/// task; else a thread (CLONE_THREAD) keeps the parent's pid, another
/// child gets `new_pid`; with CLONE_VM the child shares the parent's page
/// table and, for a non-null `stack`, returns to user space on `stack`;
/// without it, it runs in the cloned address space `new_pt`. The rest is
/// as for `fork`.
pub fn clone_child<F: Clone>(
    parent: &Task<F>,
    flags: u32,
    stack: u64,
    new_pid: Pid,
    new_pt: u64,
    alloc_base: u64,
    return_rip: u64,
) -> (r: Result<(Task<F>, Option<u64>), SyscallError>)
    requires
        alloc_base + KERNEL_STACK_GUARD_PAGES * FRAME_SIZE + KERNEL_STACK_SIZE <= u64::MAX,
    ensures
        parent.page_table_phys == 0 ==> r == Err::<(Task<F>, Option<u64>), SyscallError>(SyscallError::EPERM),
        parent.page_table_phys != 0 ==> (r matches Ok((c, user_rsp)) && forked_from(*parent, c,
            if flags & CLONE_THREAD != 0 { parent.pid } else { new_pid },
            if flags & CLONE_VM != 0 { parent.page_table_phys } else { new_pt },
            alloc_base, return_rip)
            && user_rsp == (if flags & CLONE_VM != 0 && stack != 0 { Some(stack) } else { None::<u64> })),
{
    if parent.page_table_phys == 0 {
        return Err(SyscallError::EPERM);
    }
    let shares = clone_shares_vm(flags);
    let pt = if shares { parent.page_table_phys } else { new_pt };
    let pid = if flags & CLONE_THREAD != 0 { parent.pid } else { new_pid };
    let c = child_of(parent, pid, pt, alloc_base, return_rip);
    let user_rsp = if shares && stack != 0 { Some(stack) } else { None };
    Ok((c, user_rsp))
}

} // verus!
