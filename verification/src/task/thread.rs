//! User threads sharing a process's address space.

use vstd::prelude::*;
use crate::task::task::{alloc_pid_internal, Pid, TaskState};

verus! {

/// A user thread of an existing process.
pub struct UserThread {
    pub tid: Pid,
    /// Owning process.
    pub pid: Pid,
    pub state: TaskState,
    pub stack_addr: u64,
    pub entry_point: u64,
}

impl UserThread {
    /// A new thread of process `pid`; thread ids come from the same counter
    /// as process ids.
    pub fn new(pid: Pid, entry: u64, stack_addr: u64, next_pid: &mut Pid) -> (t: UserThread)
        ensures
            t.tid == *old(next_pid),
            *final(next_pid) == (if *old(next_pid) == u32::MAX { 0 } else { (*old(next_pid) + 1) as u32 }),
            t.pid == pid,
            t.state == TaskState::Created,
            t.stack_addr == stack_addr,
            t.entry_point == entry,
    {
        UserThread {
            tid: alloc_pid_internal(next_pid),
            pid,
            state: TaskState::Created,
            stack_addr,
            entry_point: entry,
        }
    }
}

/// The next thread/process id from the shared counter.
pub fn next_id(next_pid: &mut Pid) -> (id: Pid)
    ensures
        id == *old(next_pid),
        *final(next_pid) == (if *old(next_pid) == u32::MAX { 0 } else { (*old(next_pid) + 1) as u32 }),
{
    alloc_pid_internal(next_pid)
}

} // verus!
