//! CPU state saved and restored on a context switch: the callee-saved
//! registers plus the stack and instruction pointers.

use vstd::prelude::*;

verus! {

/// Callee-saved CPU context of a task.
#[derive(Debug, Clone, Copy, PartialEq, Eq, Structural)]
pub struct TaskContext {
    pub r15: u64,
    pub r14: u64,
    pub r13: u64,
    pub r12: u64,
    pub rbx: u64,
    pub rbp: u64,
    pub rsp: u64,
    pub rip: u64,
}

/// The all-zero context.
pub open spec fn zero_context() -> TaskContext {
    TaskContext { r15: 0, r14: 0, r13: 0, r12: 0, rbx: 0, rbp: 0, rsp: 0, rip: 0 }
}

impl TaskContext {
    /// All registers zero.
    pub fn new() -> (r: TaskContext)
        ensures
            r == zero_context(),
    {
        TaskContext { r15: 0, r14: 0, r13: 0, r12: 0, rbx: 0, rbp: 0, rsp: 0, rip: 0 }
    }

    /// The first context of a user task: it "returns" into the ring-3
    /// entry trampoline at `trampoline`, which jumps to user `rip` with the
    /// thread argument `arg`.
    pub fn new_user(rip: u64, arg: u64, _page_table: u64, trampoline: u64) -> (r: TaskContext)
        ensures
            r == (TaskContext { rip: trampoline, rbx: rip, r12: arg, ..zero_context() }),
    {
        let mut context = Self::new();
        context.rip = trampoline;
        context.rbx = rip;
        context.r12 = arg;
        context
    }
}

} // verus!
