//! The task model: states, credentials and the per-task record.

use vstd::prelude::*;
use crate::task::context::{TaskContext, zero_context};
use crate::task::signal::SignalState;
use crate::vfs::file::{FdTable, MAX_FDS};

verus! {

/// Task ID type.
pub type Pid = u32;

/// Hand out the next number from a PID counter (wrapping like the atomic
/// counter it models).
pub fn alloc_pid_internal(next: &mut Pid) -> (pid: Pid)
    ensures
        pid == *old(next),
        *final(next) == (if *old(next) == u32::MAX { 0 } else { (*old(next) + 1) as u32 }),
{
    let pid = *next;
    *next = if pid == u32::MAX { 0 } else { pid + 1 };
    pid
}

/// Task state.
#[derive(Debug, Clone, Copy, PartialEq, Eq, Structural)]
pub enum TaskState {
    Created,
    Ready,
    Running,
    Blocked,
    Zombie,
}

/// Usable kernel stack pages per task.
pub const KERNEL_STACK_PAGES: usize = 16;
/// Guard pages just below each kernel stack.
pub const KERNEL_STACK_GUARD_PAGES: usize = 1;
/// Byte pattern filling the guard page.
pub const KERNEL_STACK_GUARD_BYTE: u8 = 0xCC;
/// Physical frame size.
pub const FRAME_SIZE: usize = 4096;
/// Kernel stack size in bytes.
pub const KERNEL_STACK_SIZE: usize = 65536;

/// Per-task credentials.
#[derive(Debug, Clone, Copy, PartialEq, Eq, Structural)]
pub struct Credentials {
    pub uid: u32,
    pub gid: u32,
    pub euid: u32,
    pub egid: u32,
    pub cap_permitted: u64,
    pub cap_effective: u64,
    pub cap_inheritable: u64,
}

/// Root: every id 0, every capability.
pub open spec fn root_credentials() -> Credentials {
    Credentials {
        uid: 0,
        gid: 0,
        euid: 0,
        egid: 0,
        cap_permitted: u64::MAX,
        cap_effective: u64::MAX,
        cap_inheritable: u64::MAX,
    }
}

impl Credentials {
    /// Root credentials.
    pub fn root() -> (r: Credentials)
        ensures
            r == root_credentials(),
    {
        Credentials {
            uid: 0,
            gid: 0,
            euid: 0,
            egid: 0,
            cap_permitted: u64::MAX,
            cap_effective: u64::MAX,
            cap_inheritable: u64::MAX,
        }
    }
}

/// A task. `F` is what a file descriptor refers to.
pub struct Task<F> {
    pub pid: Pid,
    /// Parent PID (0 for kernel tasks).
    pub parent_pid: Pid,
    pub state: TaskState,
    pub context: TaskContext,
    /// Base address of the kernel stack (lowest address); 0 = boot stack.
    pub kernel_stack_base: u64,
    /// Physical address of the task's top-level page table; 0 = kernel task.
    pub page_table_phys: u64,
    /// Exit status (valid when the task is a zombie).
    pub exit_status: i32,
    pub signals: SignalState,
    pub fd_table: FdTable<F>,
    /// Process group ID.
    pub pgid: Pid,
    /// Session ID.
    pub session_id: Pid,
    pub creds: Credentials,
    /// File mode creation mask.
    pub umask: u32,
    pub name: [u8; 32],
    pub name_len: usize,
    /// Current working directory (absolute path).
    pub cwd: [u8; 256],
    pub cwd_len: usize,
    /// A user signal handler is running.
    pub in_signal_handler: bool,
    /// User pointer to the signal frame of the running handler, 0 if none.
    pub saved_signal_frame_ptr: u64,
}

impl<F: Clone> Task<F> {
    /// The idle task, representing the boot context: it takes the next PID
    /// from `next_pid` (0 on a fresh counter), is already running, has no
    /// stack or page table of its own, root credentials, umask 022, the name
    /// "idle" and the working directory "/".
    pub fn idle(next_pid: &mut Pid) -> (t: Task<F>)
        ensures
            t.pid == *old(next_pid),
            *final(next_pid) == (if *old(next_pid) == u32::MAX { 0 } else { (*old(next_pid) + 1) as u32 }),
            t.parent_pid == 0,
            t.state == TaskState::Running,
            t.context == zero_context(),
            t.kernel_stack_base == 0,
            t.page_table_phys == 0,
            t.exit_status == 0,
            t.signals.pending == 0,
            t.signals.blocked == 0,
            t.fd_table.view().len() == MAX_FDS,
            forall|i: int| 0 <= i < MAX_FDS ==> #[trigger] t.fd_table.view()[i] is None,
            t.pgid == t.pid,
            t.session_id == t.pid,
            t.creds == root_credentials(),
            t.umask == 0o022,
            t.name@.subrange(0, 4) == seq![105u8, 100u8, 108u8, 101u8],
            t.name_len == 4,
            t.cwd@[0] == 47u8,
            t.cwd_len == 1,
            !t.in_signal_handler,
            t.saved_signal_frame_ptr == 0,
    {
        let pid = alloc_pid_internal(next_pid);
        let mut name_buf = [0u8; 32];
        name_buf[0] = 105u8;
        name_buf[1] = 100u8;
        name_buf[2] = 108u8;
        name_buf[3] = 101u8;
        let mut cwd_buf = [0u8; 256];
        cwd_buf[0] = 47u8;
        assert(name_buf@.subrange(0, 4) =~= seq![105u8, 100u8, 108u8, 101u8]);
        Task {
            pid,
            parent_pid: 0,
            state: TaskState::Running,
            context: TaskContext::new(),
            kernel_stack_base: 0,
            page_table_phys: 0,
            exit_status: 0,
            signals: SignalState::new(),
            fd_table: FdTable::new(),
            pgid: pid,
            session_id: pid,
            creds: Credentials::root(),
            umask: 0o022,
            name: name_buf,
            name_len: 4,
            cwd: cwd_buf,
            cwd_len: 1,
            in_signal_handler: false,
            saved_signal_frame_ptr: 0,
        }
    }
}

} // verus!
