//! User processes: a task plus where its user-mode image lives.

use vstd::prelude::*;
use vstd::string::StringSliceAdditionalSpecFns;
use crate::task::context::{zero_context, TaskContext};
use crate::task::signal::{SignalState, SIG_DFL};
use crate::task::task::{
    root_credentials, Credentials, Pid, Task, TaskState, FRAME_SIZE, KERNEL_STACK_GUARD_PAGES, KERNEL_STACK_SIZE,
};
use crate::task::user_stack::{fits_stack, stack_image, user_stack_image, views};
use crate::vfs::file::{FdTable, MAX_FDS};

verus! {

/// First PID handed to user processes.
pub const FIRST_USER_PID: u32 = 100;

/// Next user PID from the user PID counter (which starts at 100 and wraps
/// like the atomic counter it models).
pub fn alloc_user_pid(next: &mut u32) -> (pid: u32)
    ensures
        pid == *old(next),
        *final(next) == (if *old(next) == u32::MAX { 0 } else { (*old(next) + 1) as u32 }),
{
    let pid = *next;
    *next = if pid == u32::MAX { 0 } else { pid + 1 };
    pid
}

/// Saved user-space register state for IRETQ.
#[derive(Debug, Clone, Copy)]
pub struct UserRegs {
    pub rip: u64,
    pub cs: u64,
    pub rflags: u64,
    pub rsp: u64,
    pub ss: u64,
}

/// A user-space process.
pub struct UserProcess<F> {
    /// The underlying task.
    pub task: Task<F>,
    /// User-space entry point.
    pub user_entry: u64,
    /// User stack top virtual address.
    pub user_stack_top: u64,
    /// Physical base of the user stack.
    pub user_stack_phys: u64,
    /// Loaded segments (for cleanup).
    pub segment_bases: [u64; 8],
    pub segment_sizes: [usize; 8],
    pub segment_count: usize,
}

/// RFLAGS a process first runs with: interrupts enabled (IF), IOPL 0.
pub const USER_RFLAGS: u64 = 0x200;
/// Bytes of the IRETQ frame (RIP, CS, RFLAGS, RSP, SS).
pub const IRET_FRAME_SIZE: u64 = 40;

/// What a loaded ELF image hands the process built on it: its entry
/// point, its user stack (virtual top and physical base) and, for each
/// loaded segment, its physical address and size in memory.
pub struct ElfImage {
    pub entry_point: u64,
    pub stack_virt_top: u64,
    pub stack_phys_base: u64,
    pub segments: Vec<(u64, usize)>,
}

/// `p` is the process `from_elf` builds with pid `pid` for the caller
/// `caller`, named `name`, on `image`, with the kernel stack after the
/// guard page of the allocation at `alloc_base` and the page table `pt`:
/// it starts Created, its first context enters the ring-3 entry
/// `trampoline` with the stack pointer at the IRETQ frame on top of its
/// kernel stack and RBX holding that top; it is its own process group, in
/// the caller's session, with root credentials, umask 022, no open
/// descriptor, no pending or blocked signal and every handler the
/// default, the name's first 31 bytes (zero padded) and the working
/// directory "/"; it records the entry point, the user stack and the
/// segments (zero padded to 8).
pub open spec fn started_process<F: Clone>(
    p: UserProcess<F>,
    pid: Pid,
    caller: Pid,
    name: Seq<u8>,
    image: ElfImage,
    alloc_base: u64,
    pt: u64,
    trampoline: u64,
) -> bool {
    let t = p.task;
    let stack_base = alloc_base + KERNEL_STACK_GUARD_PAGES * FRAME_SIZE;
    let top = stack_base + KERNEL_STACK_SIZE;
    let len = if name.len() < 31 { name.len() as int } else { 31 };
    let segs = image.segments@;
    &&& t.pid == pid
    &&& t.parent_pid == caller
    &&& t.state == TaskState::Created
    &&& t.context == (TaskContext { rip: trampoline, rsp: (top - IRET_FRAME_SIZE) as u64, rbx: top as u64, ..zero_context() })
    &&& t.kernel_stack_base == stack_base
    &&& t.page_table_phys == pt
    &&& t.exit_status == 0
    &&& t.signals.pending == 0
    &&& t.signals.blocked == 0
    &&& forall|i: int| 0 <= i < 32 ==> t.signals.handlers@[i] == SIG_DFL
    &&& t.fd_table.view().len() == MAX_FDS
    &&& forall|i: int| 0 <= i < MAX_FDS ==> #[trigger] t.fd_table.view()[i] is None
    &&& t.pgid == pid
    &&& t.session_id == caller
    &&& t.creds == root_credentials()
    &&& t.umask == 0o022
    &&& t.name_len == len
    &&& forall|k: int| 0 <= k < 32 ==> #[trigger] t.name@[k] == (if k < len { name[k] } else { 0u8 })
    &&& t.cwd_len == 1
    &&& forall|k: int| 0 <= k < 256 ==> #[trigger] t.cwd@[k] == (if k == 0 { 47u8 } else { 0u8 })
    &&& !t.in_signal_handler
    &&& t.saved_signal_frame_ptr == 0
    &&& p.user_entry == image.entry_point
    &&& p.user_stack_top == image.stack_virt_top
    &&& p.user_stack_phys == image.stack_phys_base
    &&& p.segment_count == segs.len()
    &&& forall|i: int| 0 <= i < 8 ==> #[trigger] p.segment_bases@[i] == (if i < segs.len() { segs[i].0 } else { 0u64 })
    &&& forall|i: int| 0 <= i < 8 ==> #[trigger] p.segment_sizes@[i] == (if i < segs.len() { segs[i].1 } else { 0usize })
}

/// Start a process on a loaded ELF image (what `from_elf` computes once
/// the kernel stack is allocated at `alloc_base` and the page table `pt`
/// is made): the process record (see [`started_process`]), the IRETQ frame
/// it enters user mode through — RIP the entry point, the user code
/// selector `user_cs`, RFLAGS with interrupts enabled, the initial user
/// stack pointer and the user data selector `user_ds` — and the bytes of
/// its user stack from that pointer up to the stack's top, holding argc,
/// the argv and envp pointers and their strings (see [`stack_image`]).
pub fn start_user_process<F: Clone>(
    pid: Pid,
    caller: Pid,
    name: &str,
    image: &ElfImage,
    argv: &Vec<Vec<u8>>,
    envp: &Vec<Vec<u8>>,
    alloc_base: u64,
    pt: u64,
    trampoline: u64,
    user_cs: u64,
    user_ds: u64,
) -> (r: (UserProcess<F>, UserRegs, Vec<u8>))
    requires
        fits_stack(image.stack_virt_top as int, views(argv@), views(envp@)),
        image.segments@.len() <= 8,
        alloc_base + KERNEL_STACK_GUARD_PAGES * FRAME_SIZE + KERNEL_STACK_SIZE <= u64::MAX,
    ensures
        started_process(r.0, pid, caller, name.spec_bytes(), *image, alloc_base, pt, trampoline),
        r.1 == (UserRegs { rip: image.entry_point, cs: user_cs, rflags: USER_RFLAGS, rsp: r.1.rsp, ss: user_ds }),
        stack_image(image.stack_virt_top as int, views(argv@), views(envp@), r.1.rsp as int, r.2@),
{
    let (rsp, img) = match user_stack_image(image.stack_virt_top, argv, envp) {
        Some(s) => s,
        None => {
            assert(false);
            (0, Vec::new())
        },
    };
    let stack_base = alloc_base + (KERNEL_STACK_GUARD_PAGES * FRAME_SIZE) as u64;
    let top = stack_base + KERNEL_STACK_SIZE as u64;
    let mut context = TaskContext::new();
    context.rip = trampoline;
    context.rsp = top - IRET_FRAME_SIZE;
    context.rbx = top;

    let bytes = name.as_bytes();
    let len: usize = if bytes.len() < 31 { bytes.len() } else { 31 };
    let mut name_buf = [0u8; 32];
    let mut k: usize = 0;
    while k < len
        invariant
            len <= 31,
            len <= bytes@.len(),
            k <= len,
            forall|j: int| 0 <= j < k ==> #[trigger] name_buf@[j] == bytes@[j],
            forall|j: int| k <= j < 32 ==> #[trigger] name_buf@[j] == 0u8,
        decreases len - k,
    {
        name_buf[k] = bytes[k];
        k = k + 1;
    }
    let mut cwd_buf = [0u8; 256];
    cwd_buf[0] = 47u8;

    let count = image.segments.len();
    let mut seg_bases = [0u64; 8];
    let mut seg_sizes = [0usize; 8];
    let mut i: usize = 0;
    while i < count
        invariant
            count == image.segments@.len(),
            count <= 8,
            i <= count,
            forall|j: int| 0 <= j < i ==> #[trigger] seg_bases@[j] == image.segments@[j].0,
            forall|j: int| 0 <= j < i ==> #[trigger] seg_sizes@[j] == image.segments@[j].1,
            forall|j: int| i <= j < 8 ==> #[trigger] seg_bases@[j] == 0u64,
            forall|j: int| i <= j < 8 ==> #[trigger] seg_sizes@[j] == 0usize,
        decreases count - i,
    {
        seg_bases[i] = image.segments[i].0;
        seg_sizes[i] = image.segments[i].1;
        i = i + 1;
    }

    let process = UserProcess {
        task: Task {
            pid,
            parent_pid: caller,
            state: TaskState::Created,
            context,
            kernel_stack_base: stack_base,
            page_table_phys: pt,
            exit_status: 0,
            signals: SignalState::new(),
            fd_table: FdTable::new(),
            pgid: pid,
            session_id: caller,
            creds: Credentials::root(),
            umask: 0o022,
            name: name_buf,
            name_len: len,
            cwd: cwd_buf,
            cwd_len: 1,
            in_signal_handler: false,
            saved_signal_frame_ptr: 0,
        },
        user_entry: image.entry_point,
        user_stack_top: image.stack_virt_top,
        user_stack_phys: image.stack_phys_base,
        segment_bases: seg_bases,
        segment_sizes: seg_sizes,
        segment_count: count,
    };
    let regs = UserRegs { rip: image.entry_point, cs: user_cs, rflags: USER_RFLAGS, rsp, ss: user_ds };
    (process, regs, img)
}

/// `p` is the spawned process `p0` once it has taken over what it
/// inherits from the calling task `parent` (None when no task is
/// current): a copy of every descriptor open in the caller (an empty table
/// without one), the caller's credentials and umask (root and 022 without
/// one), and the caller's working directory, at most 256 bytes of it
/// (none without a caller); nothing else changes.
pub open spec fn inherits_from<F: Clone>(p0: UserProcess<F>, p: UserProcess<F>, parent: Option<Task<F>>) -> bool {
    let len = match parent {
        Some(t) => if t.cwd_len < 256 { t.cwd_len as int } else { 256 },
        None => 0,
    };
    &&& p == (UserProcess {
        task: Task { fd_table: p.task.fd_table, creds: p.task.creds, umask: p.task.umask, cwd: p.task.cwd, cwd_len: p.task.cwd_len, ..p0.task },
        ..p0
    })
    &&& p.task.fd_table.view().len() == MAX_FDS
    &&& p.task.cwd_len == len
    &&& forall|k: int| 0 <= k < 256 ==> #[trigger] p.task.cwd@[k] == (if k < len { parent->0.cwd@[k] } else { p0.task.cwd@[k] })
    &&& match parent {
        Some(t) => {
            &&& p.task.creds == t.creds
            &&& p.task.umask == t.umask
            &&& forall|i: int| 0 <= i < MAX_FDS ==>
                (#[trigger] p.task.fd_table.view()[i] is Some) == t.fd_table.view()[i] is Some
                && (t.fd_table.view()[i] is Some ==> cloned::<F>(t.fd_table.view()[i]->0, p.task.fd_table.view()[i]->0))
        },
        None => {
            &&& p.task.creds == root_credentials()
            &&& p.task.umask == 0o022
            &&& forall|i: int| 0 <= i < MAX_FDS ==> #[trigger] p.task.fd_table.view()[i] is None
        },
    }
}

/// Give the spawned process `process` what it inherits from the calling
/// task `parent` (see [`inherits_from`]).
pub fn spawned_child<F: Clone>(process: &mut UserProcess<F>, parent: Option<&Task<F>>)
    ensures
        inherits_from(*old(process), *final(process), match parent { Some(t) => Some(*t), None => None }),
{
    let ghost p0 = *process;
    let ghost par = match parent { Some(t) => Some(*t), None => None::<Task<F>> };
    let (fds, creds, umask, len) = match parent {
        Some(t) => (t.fd_table.clone_fds(), t.creds, t.umask, if t.cwd_len < 256 { t.cwd_len } else { 256 }),
        None => (FdTable::new(), Credentials::root(), 0o022, 0),
    };
    let mut cwd = process.task.cwd;
    let mut k: usize = 0;
    while k < len
        invariant
            len <= 256,
            k <= len,
            par is None ==> len == 0,
            par matches Some(t) ==> len == (if t.cwd_len < 256 { t.cwd_len as int } else { 256 }),
            parent matches Some(t) ==> par == Some(*t),
            parent is None ==> par is None,
            forall|j: int| 0 <= j < 256 ==> #[trigger] cwd@[j] == (if j < k { par->0.cwd@[j] } else { p0.task.cwd@[j] }),
        decreases len - k,
    {
        match parent {
            Some(t) => { cwd[k] = t.cwd[k]; },
            None => {},
        }
        k = k + 1;
    }
    process.task.fd_table = fds;
    process.task.creds = creds;
    process.task.umask = umask;
    process.task.cwd = cwd;
    process.task.cwd_len = len;
}

} // verus!
