//! Round-robin scheduler over a table of task slots.
//!
//! The scheduler decides; the caller acts. Every operation that in the
//! running kernel ends in a context switch returns a [`ContextSwitch`]
//! describing it (which slots, which page table to load, which kernel stack
//! to program), and every operation that releases a task's memory returns
//! the addresses to free.

use vstd::prelude::*;
use crate::task::process::UserProcess;
use crate::task::signal::{Signal, SignalState, sig_mask};
use crate::task::task::{Pid, Task, TaskState};

verus! {

/// Time quantum in ticks (10 ms at 1000 Hz).
pub const TIME_QUANTUM: u64 = 10;
/// Maximum number of task slots.
pub const MAX_TASKS: usize = 64;
/// Orphans are re-parented to init.
pub const INIT_PID: Pid = 100;
/// Bytes from a task's kernel stack base to its top.
pub const KERNEL_STACK_BYTES: u64 = 65536;

/// A context switch the scheduler decided on.
#[derive(Debug, Clone, Copy, PartialEq, Eq, Structural)]
pub struct ContextSwitch {
    /// Slot of the outgoing task.
    pub from: usize,
    /// Slot of the incoming task.
    pub to: usize,
    /// Page table to load before switching, when the incoming task has its
    /// own and it differs from the outgoing one's.
    pub load_page_table: Option<u64>,
    /// Kernel stack top to program for the incoming task, when it has a
    /// stack of its own.
    pub kernel_stack_top: Option<u64>,
}

/// A zombie child removed from the table: its pid and exit status, and the
/// page table and kernel stack base whose memory the caller must release
/// (0 when the task had none).
#[derive(Debug, Clone, Copy, PartialEq, Eq, Structural)]
pub struct ReapedChild {
    pub pid: Pid,
    pub status: i32,
    pub page_table_phys: u64,
    pub kernel_stack_base: u64,
}

/// Memory an exec'ing task gave up: its old page table and kernel stack base.
#[derive(Debug, Clone, Copy, PartialEq, Eq, Structural)]
pub struct ReleasedImage {
    pub page_table_phys: u64,
    pub kernel_stack_base: u64,
}

/// The scheduler state.
pub struct Scheduler<F> {
    /// All tasks (index = task slot).
    tasks: Vec<Option<Task<F>>>,
    /// Slot of the currently running task.
    current: usize,
    /// Ticks left in the current quantum.
    ticks_remaining: u64,
}

/// Slot `i` holds a ready task.
pub open spec fn ready_at<F>(ts: Seq<Option<Task<F>>>, i: int) -> bool {
    0 <= i < ts.len() && match ts[i] {
        Some(t) => t.state == TaskState::Ready,
        None => false,
    }
}

/// Slot `i` holds a task with pid `pid`.
pub open spec fn pid_at<F>(ts: Seq<Option<Task<F>>>, i: int, pid: Pid) -> bool {
    0 <= i < ts.len() && match ts[i] {
        Some(t) => t.pid == pid,
        None => false,
    }
}

/// Slot `i` holds the first task with pid `pid`.
pub open spec fn first_pid_slot<F>(ts: Seq<Option<Task<F>>>, i: int, pid: Pid) -> bool {
    pid_at(ts, i, pid) && forall|j: int| 0 <= j < i ==> !#[trigger] pid_at(ts, j, pid)
}

/// The process group of the first task with pid `pid`, None if no task
/// has it.
pub open spec fn pgid_of<F>(ts: Seq<Option<Task<F>>>, pid: Pid) -> Option<Pid> {
    if exists|i: int| #[trigger] first_pid_slot(ts, i, pid) {
        Some(ts[choose|i: int| #[trigger] first_pid_slot(ts, i, pid)]->0.pgid)
    } else {
        None
    }
}

/// `new_ts` is `ts` after setting the process group of the first task with
/// pid `pid` to `pgid`, `found` saying whether there was one (else nothing
/// changes).
pub open spec fn pgid_set<F>(ts: Seq<Option<Task<F>>>, new_ts: Seq<Option<Task<F>>>, pid: Pid, pgid: Pid, found: bool) -> bool {
    &&& found <==> exists|i: int| #[trigger] pid_at(ts, i, pid)
    &&& !found ==> new_ts == ts
    &&& found ==> exists|i: int| #[trigger] first_pid_slot(ts, i, pid)
        && new_ts == ts.update(i, Some(Task { pgid, ..ts[i]->0 }))
}

/// There is only one first slot of a pid.
proof fn lemma_first_pid_slot_unique<F>(ts: Seq<Option<Task<F>>>, i: int, k: int, pid: Pid)
    requires
        first_pid_slot(ts, i, pid),
        first_pid_slot(ts, k, pid),
    ensures
        i == k,
{
    if i < k {
        assert(!pid_at(ts, i, pid));
    } else if k < i {
        assert(!pid_at(ts, k, pid));
    }
}

/// A task with pid `pid` means a first one.
proof fn lemma_first_pid_slot_exists<F>(ts: Seq<Option<Task<F>>>, i: int, pid: Pid)
    requires
        pid_at(ts, i, pid),
    ensures
        exists|k: int| #[trigger] first_pid_slot(ts, k, pid),
    decreases i,
{
    if exists|j: int| 0 <= j < i && #[trigger] pid_at(ts, j, pid) {
        let j = choose|j: int| 0 <= j < i && #[trigger] pid_at(ts, j, pid);
        lemma_first_pid_slot_exists(ts, j, pid);
    } else {
        assert(first_pid_slot(ts, i, pid));
    }
}

/// Setting a process group and reading it back: once `set_pgid(pid, pgid)`
/// has found a task, the process group of `pid` reads `pgid`; when it found
/// none, nothing changed and `pid` has no process group; either way the
/// process group of every other pid reads as before.
pub proof fn lemma_pgid_round_trip<F>(ts: Seq<Option<Task<F>>>, new_ts: Seq<Option<Task<F>>>, pid: Pid, pgid: Pid, found: bool)
    requires
        pgid_set(ts, new_ts, pid, pgid, found),
    ensures
        found ==> pgid_of(new_ts, pid) == Some(pgid),
        !found ==> new_ts == ts && pgid_of(ts, pid) is None,
        forall|q: Pid| q != pid ==> #[trigger] pgid_of(new_ts, q) == pgid_of(ts, q),
{
    if found {
        let i = choose|i: int| #[trigger] first_pid_slot(ts, i, pid)
            && new_ts == ts.update(i, Some(Task { pgid, ..ts[i]->0 }));
        assert forall|j: int, q: Pid| #![trigger pid_at(new_ts, j, q)] #![trigger pid_at(ts, j, q)]
            pid_at(new_ts, j, q) == pid_at(ts, j, q) by {}
        assert(first_pid_slot(new_ts, i, pid));
        let k = choose|k: int| #[trigger] first_pid_slot(new_ts, k, pid);
        lemma_first_pid_slot_unique(new_ts, i, k, pid);
        assert forall|q: Pid| q != pid implies #[trigger] pgid_of(new_ts, q) == pgid_of(ts, q) by {
            if exists|k: int| #[trigger] first_pid_slot(ts, k, q) {
                let k0 = choose|k: int| #[trigger] first_pid_slot(ts, k, q);
                assert(first_pid_slot(new_ts, k0, q));
                let k1 = choose|k: int| #[trigger] first_pid_slot(new_ts, k, q);
                lemma_first_pid_slot_unique(new_ts, k0, k1, q);
                assert(k0 != i);
            } else {
                if exists|k: int| #[trigger] first_pid_slot(new_ts, k, q) {
                    let k1 = choose|k: int| #[trigger] first_pid_slot(new_ts, k, q);
                    assert(first_pid_slot(ts, k1, q));
                }
            }
        }
    } else {
        if exists|k: int| #[trigger] first_pid_slot(ts, k, pid) {
            let k = choose|k: int| #[trigger] first_pid_slot(ts, k, pid);
            assert(pid_at(ts, k, pid));
        }
    }
}

/// Kernel stack top of a task's stack base (0 when it has none).
pub open spec fn stack_top_of(base: u64) -> u64 {
    if base != 0 { ((base as int + KERNEL_STACK_BYTES as int) % 0x1_0000_0000_0000_0000) as u64 } else { 0 }
}

/// A task with a new state.
pub open spec fn with_state<F>(t: Task<F>, s: TaskState) -> Task<F> {
    Task { state: s, ..t }
}

/// A task with a signal posted, woken if it was blocked.
pub open spec fn signalled<F>(t: Task<F>, sig: Signal) -> Task<F> {
    Task {
        signals: SignalState { pending: t.signals.pending | sig_mask(sig), ..t.signals },
        state: if t.state == TaskState::Blocked { TaskState::Ready } else { t.state },
        ..t
    }
}

/// Does `t` match a wait filter issued by `parent_pid` (in group
/// `parent_pgid`)? -1: any child; 0: any child in the caller's group;
/// p > 0: the child with pid p; p < -1: any child in group -p.
pub open spec fn wait_filter_matches<F>(t: Task<F>, parent_pid: Pid, pid_filter: i32, parent_pgid: Pid) -> bool {
    t.parent_pid == parent_pid && (
        if pid_filter == -1 { true }
        else if pid_filter == 0 { t.pgid == parent_pgid }
        else if pid_filter > 0 { t.pid == pid_filter as u32 }
        else { t.pgid == (-pid_filter) as u32 }
    )
}

/// The pids of the tasks in group `pgid`, in slot order.
pub open spec fn group_pids<F>(ts: Seq<Option<Task<F>>>, pgid: Pid) -> Seq<Pid>
    decreases ts.len(),
{
    if ts.len() == 0 {
        Seq::empty()
    } else {
        group_pids(ts.drop_last(), pgid) + match ts.last() {
            Some(t) => if t.pgid == pgid { seq![t.pid] } else { Seq::empty() },
            None => Seq::empty(),
        }
    }
}

/// The slot a new task goes to: the first empty one, else a new slot at
/// the end.
pub open spec fn insertion_slot<F>(ts: Seq<Option<Task<F>>>, i: int) -> bool {
    (0 <= i < ts.len() && ts[i] is None && forall|j: int| 0 <= j < i ==> #[trigger] ts[j] is Some)
    || (i == ts.len() && forall|j: int| 0 <= j < ts.len() ==> #[trigger] ts[j] is Some)
}


/// A task re-parented to init when its parent `my_pid` exits.
pub open spec fn reparented<F>(u: Task<F>, my_pid: Pid) -> Task<F> {
    if my_pid != 0 && u.parent_pid == my_pid && u.pid != my_pid {
        Task { parent_pid: INIT_PID, ..u }
    } else {
        u
    }
}

/// `z` is `t` turned into a zombie with exit status `status`: every field
/// the same except the state, the status and a descriptor table of the same
/// size with every descriptor closed.
pub open spec fn zombie_of<F: Clone>(t: Task<F>, status: i32, z: Task<F>) -> bool {
    &&& z == Task { state: TaskState::Zombie, exit_status: status, fd_table: z.fd_table, ..t }
    &&& z.fd_table.view().len() == t.fd_table.view().len()
    &&& forall|i: int| 0 <= i < z.fd_table.view().len() ==> #[trigger] z.fd_table.view()[i] is None
}

/// The first half of an exit of the task in slot `cur`: it becomes a
/// zombie and its children are handed to init.
pub open spec fn exit_mid<F: Clone>(old_ts: Seq<Option<Task<F>>>, cur: int, status: i32, mid: Seq<Option<Task<F>>>) -> bool {
    let t = old_ts[cur]->0;
    &&& mid.len() == old_ts.len()
    &&& mid[cur] matches Some(z) && zombie_of(t, status, z)
    &&& forall|i: int| 0 <= i < old_ts.len() && i != cur ==> #[trigger] mid[i] == match old_ts[i] {
            Some(u) => Some(reparented(u, t.pid)),
            None => None,
        }
}

/// The second half: the first task with pid `parent` (if `parent` is not
/// 0 and there is one) gets SIGCHLD and is woken.
pub open spec fn exit_notify<F>(mid: Seq<Option<Task<F>>>, parent: Pid, new_ts: Seq<Option<Task<F>>>) -> bool {
    if parent != 0 && exists|i: int| #[trigger] pid_at(mid, i, parent) {
        exists|i: int| #[trigger] pid_at(mid, i, parent)
            && (forall|j: int| 0 <= j < i ==> !#[trigger] pid_at(mid, j, parent))
            && new_ts == mid.update(i, Some(signalled(mid[i]->0, Signal::SIGCHLD)))
    } else {
        new_ts == mid
    }
}

/// The bookkeeping of an exit of the task in slot `cur` (before the
/// reschedule): it becomes a zombie, its children are handed to init, and
/// the first task with its parent's pid gets SIGCHLD and is woken.
pub open spec fn exit_post<F: Clone>(old_ts: Seq<Option<Task<F>>>, cur: int, status: i32, new_ts: Seq<Option<Task<F>>>) -> bool {
    exists|mid: Seq<Option<Task<F>>>| #[trigger] exit_mid(old_ts, cur, status, mid)
        && exit_notify(mid, old_ts[cur]->0.parent_pid, new_ts)
}

/// The task in slot `i` may be reaped by a wait with this filter.
pub open spec fn reapable<F>(ts: Seq<Option<Task<F>>>, i: int, parent_pid: Pid, pid_filter: i32, parent_pgid: Pid) -> bool {
    0 <= i < ts.len() && match ts[i] {
        Some(t) => wait_filter_matches(t, parent_pid, pid_filter, parent_pgid) && t.state == TaskState::Zombie,
        None => false,
    }
}

/// Which children a wait filter `p` issued by `parent_pid` (in group
/// `parent_pgid`) takes, as waitpid defines it: only children of the
/// caller; -1 any of them, 0 those in the caller's group, p > 0 the one
/// whose pid is p, p < -1 those in group -p. A zombie child is reapable
/// exactly when it matches.
pub proof fn lemma_wait_filter<F>(t: Task<F>, parent_pid: Pid, p: i32, parent_pgid: Pid)
    ensures
        wait_filter_matches(t, parent_pid, p, parent_pgid) ==> t.parent_pid == parent_pid,
        p == -1 ==> (wait_filter_matches(t, parent_pid, p, parent_pgid) <==> t.parent_pid == parent_pid),
        p == 0 ==> (wait_filter_matches(t, parent_pid, p, parent_pgid)
            <==> t.parent_pid == parent_pid && t.pgid == parent_pgid),
        p > 0 ==> (wait_filter_matches(t, parent_pid, p, parent_pgid)
            <==> t.parent_pid == parent_pid && t.pid as int == p as int),
        p < -1 ==> (wait_filter_matches(t, parent_pid, p, parent_pgid)
            <==> t.parent_pid == parent_pid && t.pgid as int == -(p as int)),
        forall|ts: Seq<Option<Task<F>>>, i: int| 0 <= i < ts.len() && ts[i] == Some(t) ==>
            (#[trigger] reapable(ts, i, parent_pid, p, parent_pgid)
                <==> wait_filter_matches(t, parent_pid, p, parent_pgid) && t.state == TaskState::Zombie),
{
}

/// The task in slot `i` is a child matching the wait filter.
pub open spec fn child_at<F>(ts: Seq<Option<Task<F>>>, i: int, parent_pid: Pid, pid_filter: i32, parent_pgid: Pid) -> bool {
    0 <= i < ts.len() && match ts[i] {
        Some(t) => wait_filter_matches(t, parent_pid, pid_filter, parent_pgid),
        None => false,
    }
}

/// Stepping `k` slots forward from `cur` around a table of `n` slots.
pub proof fn lemma_mod_step(cur: int, k: int, n: int)
    requires
        0 <= cur < n,
        1 <= k <= n,
    ensures
        (cur + k) % n == (if cur + k < n { cur + k } else { cur + k - n }),
        (cur + k) % n == cur <==> k == n,
{
    if cur + k < n {
        vstd::arithmetic::div_mod::lemma_small_mod((cur + k) as nat, n as nat);
    } else {
        vstd::arithmetic::div_mod::lemma_small_mod((cur + k - n) as nat, n as nat);
        vstd::arithmetic::div_mod::lemma_mod_sub_multiples_vanish(cur + k, n);
    }
}

impl<F: Clone> Scheduler<F> {
    /// The task slots.
    pub closed spec fn tasks(&self) -> Seq<Option<Task<F>>> {
        self.tasks@
    }

    /// Slot of the running task.
    pub closed spec fn cur(&self) -> usize {
        self.current
    }

    /// Ticks left in the quantum.
    pub closed spec fn ticks(&self) -> u64 {
        self.ticks_remaining
    }

    /// At least one slot, no more than `MAX_TASKS`, and the current slot in range.
    pub open spec fn wf(&self) -> bool {
        0 < self.tasks().len() <= MAX_TASKS && self.cur() < self.tasks().len()
    }

    /// What `schedule` does to a well-formed scheduler whose current slot
    /// holds a task: the quantum is refilled, and the next ready task after
    /// the current one in round-robin order (if any other is ready) takes
    /// over, the outgoing task going from running back to ready.
    pub open spec fn schedule_post(
        old_ts: Seq<Option<Task<F>>>, old_cur: usize,
        new_ts: Seq<Option<Task<F>>>, new_cur: usize, new_ticks: u64,
        r: Option<ContextSwitch>,
    ) -> bool {
        let n = old_ts.len() as int;
        &&& new_ticks == TIME_QUANTUM
        &&& match r {
            None => {
                &&& new_ts == old_ts
                &&& new_cur == old_cur
                &&& (n > 1 ==> forall|m: int| 1 <= m < n ==> !#[trigger] ready_at(old_ts, (old_cur + m) % n))
            },
            Some(sw) => {
                let k = if sw.to > old_cur { sw.to - old_cur } else { sw.to + n - old_cur };
                let old_t = old_ts[old_cur as int]->0;
                let new_t = old_ts[sw.to as int]->0;
                &&& n > 1
                &&& sw.from == old_cur
                &&& sw.to < n && sw.to != old_cur
                &&& ready_at(old_ts, sw.to as int)
                &&& forall|m: int| 1 <= m < k ==> !#[trigger] ready_at(old_ts, (old_cur + m) % n)
                &&& new_cur == sw.to
                &&& new_ts == old_ts
                        .update(old_cur as int, Some(if old_t.state == TaskState::Running {
                            with_state(old_t, TaskState::Ready) } else { old_t }))
                        .update(sw.to as int, Some(with_state(new_t, TaskState::Running)))
                &&& sw.load_page_table == (if new_t.page_table_phys != 0
                        && new_t.page_table_phys != old_t.page_table_phys {
                        Some(new_t.page_table_phys) } else { None })
                &&& sw.kernel_stack_top == (if new_t.kernel_stack_base != 0 {
                        Some(stack_top_of(new_t.kernel_stack_base)) } else { None })
            },
        }
    }

    /// An empty scheduler (no idle task yet: call `init`).
    pub fn new() -> (s: Scheduler<F>)
        ensures
            s.tasks().len() == 0,
            s.cur() == 0,
            s.ticks() == TIME_QUANTUM,
    {
        Scheduler { tasks: Vec::new(), current: 0, ticks_remaining: TIME_QUANTUM }
    }

    /// Install the idle task (taking the next PID from `next_pid`) in a new
    /// slot and make it current.
    pub fn init(&mut self, next_pid: &mut Pid)
        requires
            old(self).tasks().len() < MAX_TASKS,
        ensures
            final(self).tasks().len() == old(self).tasks().len() + 1,
            final(self).tasks().subrange(0, old(self).tasks().len() as int) == old(self).tasks(),
            final(self).tasks().last() matches Some(t) && t.pid == *old(next_pid)
                && t.state == TaskState::Running && t.parent_pid == 0,
            final(self).cur() == 0,
            final(self).ticks() == TIME_QUANTUM,
            *final(next_pid) == (if *old(next_pid) == u32::MAX { 0 } else { (*old(next_pid) + 1) as u32 }),
            final(self).wf(),
    {
        let idle = Task::idle(next_pid);
        self.tasks.push(Some(idle));
        self.current = 0;
        self.ticks_remaining = TIME_QUANTUM;
        assert(self.tasks@.subrange(0, old(self).tasks().len() as int) =~= old(self).tasks());
    }

    /// Put a ready task in the first empty slot (or a new one).
    fn insert_task(&mut self, task: Task<F>) -> (slot: usize)
        requires
            old(self).tasks().len() < MAX_TASKS,
        ensures
            insertion_slot(old(self).tasks(), slot as int),
            final(self).tasks() == (if slot < old(self).tasks().len() {
                old(self).tasks().update(slot as int, Some(task))
            } else {
                old(self).tasks().push(Some(task))
            }),
            final(self).cur() == old(self).cur(),
            final(self).ticks() == old(self).ticks(),
    {
        let mut i: usize = 0;
        while i < self.tasks.len()
            invariant
                i <= self.tasks@.len(),
                self.tasks@ == old(self).tasks(),
                self.current == old(self).cur(),
                self.ticks_remaining == old(self).ticks(),
                forall|j: int| 0 <= j < i ==> #[trigger] self.tasks@[j] is Some,
            decreases self.tasks@.len() - i,
        {
            if self.tasks[i].is_none() {
                self.tasks.set(i, Some(task));
                return i;
            }
            i = i + 1;
        }
        self.tasks.push(Some(task));
        i
    }

    /// Add an already-built task, marked ready; it goes to the first empty
    /// slot or a new slot at the end. Fails when the table already has
    /// `MAX_TASKS` slots.
    pub fn spawn(&mut self, task: Task<F>) -> (r: Result<Pid, &'static str>)
        ensures
            old(self).tasks().len() >= MAX_TASKS ==> r is Err && final(self).tasks() == old(self).tasks(),
            old(self).tasks().len() < MAX_TASKS ==> r == Ok::<Pid, &'static str>(task.pid)
                && exists|slot: int| insertion_slot(old(self).tasks(), slot)
                    && final(self).tasks() == (if slot < old(self).tasks().len() {
                        old(self).tasks().update(slot, Some(with_state(task, TaskState::Ready)))
                    } else {
                        old(self).tasks().push(Some(with_state(task, TaskState::Ready)))
                    }),
            final(self).cur() == old(self).cur(),
            final(self).ticks() == old(self).ticks(),
    {
        if self.tasks.len() >= MAX_TASKS {
            return Err("Maximum task limit reached");
        }
        let mut task = task;
        let pid = task.pid;
        task.state = TaskState::Ready;
        let slot = self.insert_task(task);
        assert(insertion_slot(old(self).tasks(), slot as int));
        Ok(pid)
    }

    /// Add a loaded user process, marked ready, like `spawn`.
    pub fn spawn_user(&mut self, process: UserProcess<F>) -> (r: Result<Pid, &'static str>)
        ensures
            old(self).tasks().len() >= MAX_TASKS ==> r is Err && final(self).tasks() == old(self).tasks(),
            old(self).tasks().len() < MAX_TASKS ==> r == Ok::<Pid, &'static str>(process.task.pid)
                && exists|slot: int| insertion_slot(old(self).tasks(), slot)
                    && final(self).tasks() == (if slot < old(self).tasks().len() {
                        old(self).tasks().update(slot, Some(with_state(process.task, TaskState::Ready)))
                    } else {
                        old(self).tasks().push(Some(with_state(process.task, TaskState::Ready)))
                    }),
            final(self).cur() == old(self).cur(),
            final(self).ticks() == old(self).ticks(),
    {
        self.spawn(process.task)
    }

    /// Insert a task built by fork, marked ready, like `spawn`.
    pub fn spawn_forked(&mut self, task: Task<F>) -> (r: Result<Pid, &'static str>)
        ensures
            old(self).tasks().len() >= MAX_TASKS ==> r is Err && final(self).tasks() == old(self).tasks(),
            old(self).tasks().len() < MAX_TASKS ==> r == Ok::<Pid, &'static str>(task.pid)
                && exists|slot: int| insertion_slot(old(self).tasks(), slot)
                    && final(self).tasks() == (if slot < old(self).tasks().len() {
                        old(self).tasks().update(slot, Some(with_state(task, TaskState::Ready)))
                    } else {
                        old(self).tasks().push(Some(with_state(task, TaskState::Ready)))
                    }),
            final(self).cur() == old(self).cur(),
            final(self).ticks() == old(self).ticks(),
    {
        self.spawn(task)
    }

    /// Threads sharing an address space are not wired up yet: always fails.
    pub fn spawn_thread(&mut self, _routine: u64, _arg: u64, _parent_task: &Task<F>) -> (r: Result<Pid, &'static str>)
        ensures
            r is Err,
            final(self).tasks() == old(self).tasks(),
            final(self).cur() == old(self).cur(),
            final(self).ticks() == old(self).ticks(),
    {
        Err("pthread_create thread bootstrap not wired yet")
    }

    /// Pick the next task and decide the context switch (see `schedule_post`).
    pub fn schedule(&mut self) -> (r: Option<ContextSwitch>)
        requires
            old(self).wf(),
            (exists|m: int| 1 <= m < old(self).tasks().len()
                && #[trigger] ready_at(old(self).tasks(), (old(self).cur() + m) % (old(self).tasks().len() as int)))
                ==> old(self).tasks()[old(self).cur() as int] is Some,
        ensures
            final(self).wf(),
            Self::schedule_post(old(self).tasks(), old(self).cur(), final(self).tasks(),
                final(self).cur(), final(self).ticks(), r),
    {
        let n = self.tasks.len();
        if n <= 1 {
            self.ticks_remaining = TIME_QUANTUM;
            return None;
        }
        let cur = self.current;
        let mut k: usize = 1;
        let mut found: Option<usize> = None;
        while k <= n
            invariant_except_break
                found is None,
            invariant
                1 <= k <= n + 1,
                n == self.tasks@.len(),
                n <= MAX_TASKS,
                cur < n,
                forall|m: int| 1 <= m < k ==> !#[trigger] ready_at(self.tasks@, (cur + m) % (n as int)),
            ensures
                found matches Some(kk) ==> 1 <= kk <= n && ready_at(self.tasks@, (cur + kk) % (n as int))
                    && forall|m: int| 1 <= m < kk ==> !#[trigger] ready_at(self.tasks@, (cur + m) % (n as int)),
                found is None ==> forall|m: int| 1 <= m <= n ==> !#[trigger] ready_at(self.tasks@, (cur + m) % (n as int)),
            decreases n + 1 - k,
        {
            let idx = (cur + k) % n;
            let is_ready = match &self.tasks[idx] {
                Some(t) => t.state == TaskState::Ready,
                None => false,
            };
            if is_ready {
                found = Some(k);
                break;
            }
            k = k + 1;
        }
        let kk = match found {
            None => {
                self.ticks_remaining = TIME_QUANTUM;
                return None;
            }
            Some(kk) => kk,
        };
        let next = (cur + kk) % n;
        proof {
            lemma_mod_step(cur as int, kk as int, n as int);
        }
        if next == cur {
            self.ticks_remaining = TIME_QUANTUM;
            return None;
        }
        assert(ready_at(old(self).tasks(), (old(self).cur() + kk) % (old(self).tasks().len() as int)));
        proof {
            assert(kk < n);
            assert(if next > cur { next - cur == kk } else { next + n - cur == kk });
        }
        let (old_state, old_pt) = match &self.tasks[cur] {
            Some(t) => (t.state, t.page_table_phys),
            None => (TaskState::Created, 0),
        };
        let (new_pt, new_base) = match &self.tasks[next] {
            Some(t) => (t.page_table_phys, t.kernel_stack_base),
            None => (0, 0),
        };
        self.current = next;
        self.ticks_remaining = TIME_QUANTUM;
        if old_state == TaskState::Running {
            match &mut self.tasks[cur] {
                Some(t) => { t.state = TaskState::Ready; }
                None => {}
            }
        }
        match &mut self.tasks[next] {
            Some(t) => { t.state = TaskState::Running; }
            None => {}
        }
        let load_page_table = if new_pt != 0 && new_pt != old_pt { Some(new_pt) } else { None };
        let kernel_stack_top = if new_base != 0 {
            Some(new_base.wrapping_add(KERNEL_STACK_BYTES))
        } else {
            None
        };
        let r = Some(ContextSwitch { from: cur, to: next, load_page_table, kernel_stack_top });
        proof {
            let ots = old(self).tasks();
            let old_t = ots[cur as int]->0;
            let new_t = ots[next as int]->0;
            assert(ready_at(ots, next as int));
            assert(self.current == next);
            assert(load_page_table == (if new_t.page_table_phys != 0
                        && new_t.page_table_phys != old_t.page_table_phys {
                        Some(new_t.page_table_phys) } else { None }));
            assert(kernel_stack_top == (if new_t.kernel_stack_base != 0 {
                        Some(stack_top_of(new_t.kernel_stack_base)) } else { None }));
            assert(self.tasks@ =~= ots
                        .update(cur as int, Some(if old_t.state == TaskState::Running {
                            with_state(old_t, TaskState::Ready) } else { old_t }))
                        .update(next as int, Some(with_state(new_t, TaskState::Running))));
        }
        r
    }

    /// Number of task slots (used or free).
    pub fn task_slots(&self) -> (r: usize)
        ensures
            r == self.tasks().len(),
    {
        self.tasks.len()
    }

    /// Is slot `i` holding a task?
    pub fn slot_occupied(&self, i: usize) -> (r: bool)
        ensures
            r == (i < self.tasks().len() && self.tasks()[i as int] is Some),
    {
        i < self.tasks.len() && self.tasks[i].is_some()
    }

    /// Ticks left in the current quantum.
    pub fn ticks_remaining(&self) -> (r: u64)
        ensures
            r == self.ticks(),
    {
        self.ticks_remaining
    }

    /// A timer tick: use up one tick of the quantum and reschedule when it
    /// runs out.
    pub fn timer_tick(&mut self) -> (r: Option<ContextSwitch>)
        requires
            old(self).wf(),
            old(self).tasks()[old(self).cur() as int] is Some,
        ensures
            final(self).wf(),
            (old(self).ticks() > 1) ==> r is None && final(self).ticks() == old(self).ticks() - 1
                && final(self).tasks() == old(self).tasks() && final(self).cur() == old(self).cur(),
            (old(self).ticks() <= 1) ==> Self::schedule_post(old(self).tasks(), old(self).cur(),
                final(self).tasks(), final(self).cur(), final(self).ticks(), r),
    {
        if self.ticks_remaining > 0 {
            self.ticks_remaining = self.ticks_remaining - 1;
        }
        if self.ticks_remaining == 0 {
            return self.schedule();
        }
        None
    }

    /// Give up the rest of the quantum.
    pub fn yield_current(&mut self) -> (r: Option<ContextSwitch>)
        requires
            old(self).wf(),
            old(self).tasks()[old(self).cur() as int] is Some,
        ensures
            final(self).wf(),
            Self::schedule_post(old(self).tasks(), old(self).cur(), final(self).tasks(),
                final(self).cur(), final(self).ticks(), r),
    {
        self.ticks_remaining = 0;
        self.schedule()
    }

    /// Mark the current task blocked (the caller reschedules right after).
    pub fn block_current(&mut self)
        requires
            old(self).wf(),
        ensures
            final(self).wf(),
            final(self).cur() == old(self).cur(),
            final(self).ticks() == old(self).ticks(),
            final(self).tasks() == (match old(self).tasks()[old(self).cur() as int] {
                Some(t) => old(self).tasks().update(old(self).cur() as int, Some(with_state(t, TaskState::Blocked))),
                None => old(self).tasks(),
            }),
    {
        let idx = self.current;
        match &mut self.tasks[idx] {
            Some(t) => { t.state = TaskState::Blocked; }
            None => {}
        }
    }

    /// PID of the current task (0 if its slot is empty).
    pub fn current_pid(&self) -> (r: Pid)
        requires
            self.wf(),
        ensures
            r == (match self.tasks()[self.cur() as int] { Some(t) => t.pid, None => 0 }),
    {
        match &self.tasks[self.current] {
            Some(t) => t.pid,
            None => 0,
        }
    }

    /// Parent PID of the current task (0 if its slot is empty).
    pub fn current_parent_pid(&self) -> (r: Pid)
        requires
            self.wf(),
        ensures
            r == (match self.tasks()[self.cur() as int] { Some(t) => t.parent_pid, None => 0 }),
    {
        match &self.tasks[self.current] {
            Some(t) => t.parent_pid,
            None => 0,
        }
    }

    /// Page table of the current task (0 = kernel task or empty slot).
    pub fn current_page_table_phys(&self) -> (r: u64)
        requires
            self.wf(),
        ensures
            r == (match self.tasks()[self.cur() as int] { Some(t) => t.page_table_phys, None => 0 }),
    {
        match &self.tasks[self.current] {
            Some(t) => t.page_table_phys,
            None => 0,
        }
    }

    /// Kernel stack top of the current task (0 when it has no stack).
    pub fn current_kernel_stack_top(&self) -> (r: u64)
        requires
            self.wf(),
        ensures
            r == (match self.tasks()[self.cur() as int] { Some(t) => stack_top_of(t.kernel_stack_base), None => 0 }),
    {
        match &self.tasks[self.current] {
            Some(t) => {
                if t.kernel_stack_base != 0 {
                    t.kernel_stack_base.wrapping_add(KERNEL_STACK_BYTES)
                } else {
                    0
                }
            }
            None => 0,
        }
    }

    /// Process group of the current task (0 if its slot is empty).
    pub fn current_pgid(&self) -> (r: Pid)
        requires
            self.wf(),
        ensures
            r == (match self.tasks()[self.cur() as int] { Some(t) => t.pgid, None => 0 }),
    {
        match &self.tasks[self.current] {
            Some(t) => t.pgid,
            None => 0,
        }
    }

    /// Session of the current task (0 if its slot is empty).
    pub fn current_session_id(&self) -> (r: Pid)
        requires
            self.wf(),
        ensures
            r == (match self.tasks()[self.cur() as int] { Some(t) => t.session_id, None => 0 }),
    {
        match &self.tasks[self.current] {
            Some(t) => t.session_id,
            None => 0,
        }
    }

    /// Set the process group of the first task with pid `pid`; false if
    /// there is none.
    pub fn set_pgid(&mut self, pid: Pid, pgid: Pid) -> (found: bool)
        ensures
            final(self).cur() == old(self).cur(),
            final(self).ticks() == old(self).ticks(),
            pgid_set(old(self).tasks(), final(self).tasks(), pid, pgid, found),
    {
        let mut i: usize = 0;
        while i < self.tasks.len()
            invariant
                i <= self.tasks@.len(),
                self.tasks@ == old(self).tasks(),
                self.current == old(self).cur(),
                self.ticks_remaining == old(self).ticks(),
                forall|j: int| 0 <= j < i ==> !#[trigger] pid_at(self.tasks@, j, pid),
            decreases self.tasks@.len() - i,
        {
            let hit = match &self.tasks[i] {
                Some(t) => t.pid == pid,
                None => false,
            };
            if hit {
                let ghost before = self.tasks@;
                match &mut self.tasks[i] {
                    Some(t) => { t.pgid = pgid; }
                    None => {}
                }
                assert(first_pid_slot(before, i as int, pid));
                return true;
            }
            i = i + 1;
        }
        false
    }

    /// Process group of the first task with pid `pid`.
    pub fn get_pgid(&self, pid: Pid) -> (r: Option<Pid>)
        ensures
            r == pgid_of(self.tasks(), pid),
            r is None <==> forall|i: int| !#[trigger] pid_at(self.tasks(), i, pid),
    {
        let mut i: usize = 0;
        while i < self.tasks.len()
            invariant
                i <= self.tasks@.len(),
                forall|j: int| 0 <= j < i ==> !#[trigger] pid_at(self.tasks@, j, pid),
            decreases self.tasks@.len() - i,
        {
            match &self.tasks[i] {
                Some(t) => {
                    if t.pid == pid {
                        assert(first_pid_slot(self.tasks(), i as int, pid));
                        let ghost k = choose|k: int| #[trigger] first_pid_slot(self.tasks(), k, pid);
                        proof { lemma_first_pid_slot_unique(self.tasks(), i as int, k, pid); }
                        return Some(t.pgid);
                    }
                }
                None => {}
            }
            i = i + 1;
        }
        None
    }

    /// The pids of every task in group `pgid`, in slot order.
    pub fn pids_in_group(&self, pgid: Pid) -> (r: Vec<Pid>)
        ensures
            r@ == group_pids(self.tasks(), pgid),
    {
        let mut out: Vec<Pid> = Vec::new();
        let mut i: usize = 0;
        while i < self.tasks.len()
            invariant
                i <= self.tasks@.len(),
                out@ == group_pids(self.tasks@.subrange(0, i as int), pgid),
            decreases self.tasks@.len() - i,
        {
            let ghost pre = self.tasks@.subrange(0, i as int);
            let ghost next = self.tasks@.subrange(0, i + 1);
            assert(next.drop_last() =~= pre);
            match &self.tasks[i] {
                Some(t) => {
                    if t.pgid == pgid {
                        out.push(t.pid);
                    }
                }
                None => {}
            }
            assert(out@ =~= group_pids(next, pgid));
            i = i + 1;
        }
        assert(self.tasks@.subrange(0, self.tasks@.len() as int) =~= self.tasks@);
        out
    }

    /// Make the current task the leader of a new session and group; returns
    /// its pid (0 if its slot is empty).
    pub fn create_session(&mut self) -> (r: Pid)
        requires
            old(self).wf(),
        ensures
            final(self).wf(),
            final(self).cur() == old(self).cur(),
            final(self).ticks() == old(self).ticks(),
            match old(self).tasks()[old(self).cur() as int] {
                Some(t) => r == t.pid && final(self).tasks() == old(self).tasks().update(
                    old(self).cur() as int, Some(Task { session_id: t.pid, pgid: t.pid, ..t })),
                None => r == 0 && final(self).tasks() == old(self).tasks(),
            },
    {
        let idx = self.current;
        match &mut self.tasks[idx] {
            Some(t) => {
                t.session_id = t.pid;
                t.pgid = t.pid;
                t.pid
            }
            None => 0,
        }
    }

    /// Post `sig` to every task in group `pgid`, waking blocked ones.
    pub fn send_signal_to_group(&mut self, pgid: Pid, sig: Signal)
        ensures
            final(self).cur() == old(self).cur(),
            final(self).ticks() == old(self).ticks(),
            final(self).tasks().len() == old(self).tasks().len(),
            forall|i: int| 0 <= i < old(self).tasks().len() ==> #[trigger] final(self).tasks()[i] == (
                match old(self).tasks()[i] {
                    Some(t) => if t.pgid == pgid { Some(signalled(t, sig)) } else { Some(t) },
                    None => None,
                }),
    {
        let mut i: usize = 0;
        while i < self.tasks.len()
            invariant
                i <= self.tasks@.len(),
                self.tasks@.len() == old(self).tasks().len(),
                self.current == old(self).cur(),
                self.ticks_remaining == old(self).ticks(),
                forall|j: int| 0 <= j < i ==> #[trigger] self.tasks@[j] == (
                    match old(self).tasks()[j] {
                        Some(t) => if t.pgid == pgid { Some(signalled(t, sig)) } else { Some(t) },
                        None => None,
                    }),
                forall|j: int| i <= j < self.tasks@.len() ==> #[trigger] self.tasks@[j] == old(self).tasks()[j],
            decreases self.tasks@.len() - i,
        {
            match &mut self.tasks[i] {
                Some(t) => {
                    if t.pgid == pgid {
                        t.signals.send(sig);
                        if t.state == TaskState::Blocked {
                            t.state = TaskState::Ready;
                        }
                    }
                }
                None => {}
            }
            i = i + 1;
        }
    }

    /// Does `task` match a wait filter issued by `parent_pid`?
    pub fn child_matches_wait_filter(task: &Task<F>, parent_pid: Pid, pid_filter: i32, parent_pgid: Pid) -> (r: bool)
        ensures
            r == wait_filter_matches(*task, parent_pid, pid_filter, parent_pgid),
            pid_filter > 0 ==> (r <==> task.parent_pid == parent_pid && task.pid as int == pid_filter as int),
            pid_filter == -1 ==> (r <==> task.parent_pid == parent_pid),
    {
        if task.parent_pid != parent_pid {
            return false;
        }
        if pid_filter == -1 {
            true
        } else if pid_filter == 0 {
            task.pgid == parent_pgid
        } else if pid_filter > 0 {
            task.pid == pid_filter as u32
        } else {
            task.pgid == (-(pid_filter as i64)) as u32
        }
    }

    /// Is there a child of `parent_pid` matching the wait filter?
    pub fn has_children_filtered(&self, parent_pid: Pid, pid_filter: i32, parent_pgid: Pid) -> (r: bool)
        ensures
            r == exists|i: int| #[trigger] child_at(self.tasks(), i, parent_pid, pid_filter, parent_pgid),
    {
        let mut i: usize = 0;
        while i < self.tasks.len()
            invariant
                i <= self.tasks@.len(),
                forall|j: int| 0 <= j < i ==> !#[trigger] child_at(self.tasks@, j, parent_pid, pid_filter, parent_pgid),
            decreases self.tasks@.len() - i,
        {
            match &self.tasks[i] {
                Some(t) => {
                    if Self::child_matches_wait_filter(t, parent_pid, pid_filter, parent_pgid) {
                        assert(child_at(self.tasks(), i as int, parent_pid, pid_filter, parent_pgid));
                        return true;
                    }
                }
                None => {}
            }
            i = i + 1;
        }
        false
    }

    /// Does `parent_pid` have any child at all?
    pub fn has_children(&self, parent_pid: Pid) -> (r: bool)
        ensures
            r == exists|i: int| #[trigger] child_at(self.tasks(), i, parent_pid, -1i32, 0u32),
    {
        self.has_children_filtered(parent_pid, -1i32, 0u32)
    }

    /// Remove the first zombie child matching the wait filter and report
    /// it, with the memory the caller must now release.
    pub fn reap_zombie_child_filtered(&mut self, parent_pid: Pid, pid_filter: i32, parent_pgid: Pid) -> (r: Option<ReapedChild>)
        ensures
            final(self).cur() == old(self).cur(),
            final(self).ticks() == old(self).ticks(),
            r is None <==> forall|i: int| !#[trigger] reapable(old(self).tasks(), i, parent_pid, pid_filter, parent_pgid),
            r is None ==> final(self).tasks() == old(self).tasks(),
            r matches Some(c) ==> exists|i: int| #[trigger] reapable(old(self).tasks(), i, parent_pid, pid_filter, parent_pgid)
                && (forall|j: int| 0 <= j < i ==> !#[trigger] reapable(old(self).tasks(), j, parent_pid, pid_filter, parent_pgid))
                && final(self).tasks() == old(self).tasks().update(i, None)
                && c == (ReapedChild {
                    pid: old(self).tasks()[i]->0.pid,
                    status: old(self).tasks()[i]->0.exit_status,
                    page_table_phys: old(self).tasks()[i]->0.page_table_phys,
                    kernel_stack_base: old(self).tasks()[i]->0.kernel_stack_base,
                }),
            pid_filter > 0 && r is Some ==> r->0.pid as int == pid_filter as int,
            pid_filter > 0 && (exists|i: int| 0 <= i < old(self).tasks().len() && (#[trigger] old(self).tasks()[i]) is Some
                && old(self).tasks()[i]->0.parent_pid == parent_pid && old(self).tasks()[i]->0.pid as int == pid_filter as int
                && old(self).tasks()[i]->0.state == TaskState::Zombie)
                ==> r is Some,
    {
        let mut i: usize = 0;
        while i < self.tasks.len()
            invariant
                i <= self.tasks@.len(),
                self.tasks@ == old(self).tasks(),
                self.current == old(self).cur(),
                self.ticks_remaining == old(self).ticks(),
                forall|j: int| 0 <= j < i ==> !#[trigger] reapable(self.tasks@, j, parent_pid, pid_filter, parent_pgid),
            decreases self.tasks@.len() - i,
        {
            let found = match &self.tasks[i] {
                Some(t) => {
                    if Self::child_matches_wait_filter(t, parent_pid, pid_filter, parent_pgid)
                        && t.state == TaskState::Zombie {
                        Some(ReapedChild {
                            pid: t.pid,
                            status: t.exit_status,
                            page_table_phys: t.page_table_phys,
                            kernel_stack_base: t.kernel_stack_base,
                        })
                    } else {
                        None
                    }
                }
                None => None,
            };
            if found.is_some() {
                assert(reapable(old(self).tasks(), i as int, parent_pid, pid_filter, parent_pgid));
                self.tasks.set(i, None);
                return found;
            }
            i = i + 1;
        }
        proof {
            let ts = old(self).tasks();
            if pid_filter > 0 && exists|k: int| 0 <= k < ts.len() && (#[trigger] ts[k]) is Some
                && ts[k]->0.parent_pid == parent_pid && ts[k]->0.pid as int == pid_filter as int
                && ts[k]->0.state == TaskState::Zombie {
                let k = choose|k: int| 0 <= k < ts.len() && (#[trigger] ts[k]) is Some
                    && ts[k]->0.parent_pid == parent_pid && ts[k]->0.pid as int == pid_filter as int
                    && ts[k]->0.state == TaskState::Zombie;
                assert(reapable(ts, k, parent_pid, pid_filter, parent_pgid));
            }
        }
        None
    }

    /// Remove the first zombie child of `parent_pid`.
    pub fn reap_zombie_child(&mut self, parent_pid: Pid) -> (r: Option<ReapedChild>)
        ensures
            final(self).cur() == old(self).cur(),
            final(self).ticks() == old(self).ticks(),
            r is None <==> forall|i: int| !#[trigger] reapable(old(self).tasks(), i, parent_pid, -1i32, 0u32),
            r is None ==> final(self).tasks() == old(self).tasks(),
            r matches Some(c) ==> exists|i: int| #[trigger] reapable(old(self).tasks(), i, parent_pid, -1i32, 0u32)
                && (forall|j: int| 0 <= j < i ==> !#[trigger] reapable(old(self).tasks(), j, parent_pid, -1i32, 0u32))
                && final(self).tasks() == old(self).tasks().update(i, None)
                && c.pid == old(self).tasks()[i]->0.pid
                && c.status == old(self).tasks()[i]->0.exit_status,
    {
        self.reap_zombie_child_filtered(parent_pid, -1i32, 0u32)
    }

    /// Replace the current task's image for exec: new context, kernel stack,
    /// page table and name, signals reset; pid, parent, group, session and
    /// descriptors kept. Returns the old page table and kernel stack for the
    /// caller to release (None if the slot is empty).
    pub fn replace_current_image(&mut self, new_task: &Task<F>) -> (r: Option<ReleasedImage>)
        requires
            old(self).wf(),
        ensures
            final(self).wf(),
            final(self).cur() == old(self).cur(),
            final(self).ticks() == old(self).ticks(),
            match old(self).tasks()[old(self).cur() as int] {
                None => r is None && final(self).tasks() == old(self).tasks(),
                Some(t) => {
                    let nt = final(self).tasks()[old(self).cur() as int]->0;
                    &&& r == Some(ReleasedImage { page_table_phys: t.page_table_phys, kernel_stack_base: t.kernel_stack_base })
                    &&& final(self).tasks() == old(self).tasks().update(old(self).cur() as int, Some(nt))
                    &&& nt == Task {
                        context: new_task.context,
                        kernel_stack_base: new_task.kernel_stack_base,
                        page_table_phys: new_task.page_table_phys,
                        signals: nt.signals,
                        name: new_task.name,
                        name_len: new_task.name_len,
                        ..t
                    }
                    &&& nt.signals.pending == 0 && nt.signals.blocked == 0
                    &&& forall|i: int| 0 <= i < 32 ==> #[trigger] nt.signals.handlers@[i] == 0
                },
            },
    {
        let idx = self.current;
        match &mut self.tasks[idx] {
            Some(t) => {
                let released = ReleasedImage {
                    page_table_phys: t.page_table_phys,
                    kernel_stack_base: t.kernel_stack_base,
                };
                t.context = new_task.context;
                t.kernel_stack_base = new_task.kernel_stack_base;
                t.page_table_phys = new_task.page_table_phys;
                t.signals = SignalState::new();
                t.name = new_task.name;
                t.name_len = new_task.name_len;
                Some(released)
            }
            None => None,
        }
    }

    /// Exit bookkeeping for the current task (see `exit_post`).
    fn exit_bookkeeping(&mut self, status: i32)
        requires
            old(self).wf(),
            old(self).tasks()[old(self).cur() as int] is Some,
        ensures
            final(self).wf(),
            final(self).cur() == old(self).cur(),
            final(self).ticks() == old(self).ticks(),
            final(self).tasks()[final(self).cur() as int] is Some,
            exit_post(old(self).tasks(), old(self).cur() as int, status, final(self).tasks()),
    {
        let idx = self.current;
        let ghost t = old(self).tasks()[idx as int]->0;
        let (my_pid, parent_pid) = match &mut self.tasks[idx] {
            Some(task) => {
                task.state = TaskState::Zombie;
                task.exit_status = status;
                task.fd_table.close_all();
                (task.pid, task.parent_pid)
            }
            None => (0, 0),
        };
        let ghost z = self.tasks@[idx as int]->0;
        assert(zombie_of(t, status, z));
        let mut i: usize = 0;
        while i < self.tasks.len()
            invariant
                i <= self.tasks@.len(),
                self.tasks@.len() == old(self).tasks().len(),
                self.current == idx,
                idx == old(self).cur(),
                old(self).wf(),
                idx < self.tasks@.len(),
                self.ticks_remaining == old(self).ticks(),
                my_pid == t.pid,
                t == old(self).tasks()[idx as int]->0,
                zombie_of(t, status, z),
                z.pid == my_pid,
                self.tasks@[idx as int] == Some(z),
                forall|j: int| 0 <= j < i && j != idx ==> #[trigger] self.tasks@[j] == match old(self).tasks()[j] {
                    Some(u) => Some(reparented(u, my_pid)),
                    None => None,
                },
                forall|j: int| i <= j < self.tasks@.len() && j != idx ==> #[trigger] self.tasks@[j] == old(self).tasks()[j],
            decreases self.tasks@.len() - i,
        {
            if my_pid != 0 {
                match &mut self.tasks[i] {
                    Some(u) => {
                        if u.parent_pid == my_pid && u.pid != my_pid {
                            u.parent_pid = INIT_PID;
                        }
                    }
                    None => {}
                }
            }
            i = i + 1;
        }
        let ghost mid = self.tasks@;
        if parent_pid != 0 {
            let mut k: usize = 0;
            while k < self.tasks.len()
                invariant
                    k <= self.tasks@.len(),
                    self.tasks@ == mid,
                    mid.len() == old(self).tasks().len(),
                    self.current == idx,
                    idx == old(self).cur(),
                    old(self).wf(),
                    mid[idx as int] is Some,
                    idx < mid.len(),
                    t == old(self).tasks()[idx as int]->0,
                    my_pid == t.pid,
                    parent_pid == t.parent_pid,
                    parent_pid != 0,
                    mid[idx as int] == Some(z),
                    zombie_of(t, status, z),
                    forall|j: int| 0 <= j < mid.len() && j != idx ==> #[trigger] mid[j] == match old(self).tasks()[j] {
                        Some(u) => Some(reparented(u, my_pid)),
                        None => None,
                    },
                    self.ticks_remaining == old(self).ticks(),
                    forall|j: int| 0 <= j < k ==> !#[trigger] pid_at(mid, j, parent_pid),
                decreases self.tasks@.len() - k,
            {
                let hit = match &self.tasks[k] {
                    Some(u) => u.pid == parent_pid,
                    None => false,
                };
                if hit {
                    assert(pid_at(mid, k as int, parent_pid));
                    match &mut self.tasks[k] {
                        Some(u) => {
                            u.signals.send(Signal::SIGCHLD);
                            if u.state == TaskState::Blocked {
                                u.state = TaskState::Ready;
                            }
                        }
                        None => {}
                    }
                    assert(self.tasks@ =~= mid.update(k as int, Some(signalled(mid[k as int]->0, Signal::SIGCHLD))));
                    proof {
                        let w = k as int;
                        assert(exists|i: int| #[trigger] pid_at(mid, i, parent_pid));
                        assert(pid_at(mid, w, parent_pid)
                            && (forall|j: int| 0 <= j < w ==> !#[trigger] pid_at(mid, j, parent_pid))
                            && self.tasks@ == mid.update(w, Some(signalled(mid[w]->0, Signal::SIGCHLD))));
                        assert(mid.len() == old(self).tasks().len());
                        assert(mid[idx as int] matches Some(zz) && zombie_of(t, status, zz));
                        assert(exit_mid(old(self).tasks(), idx as int, status, mid));
                        assert(exit_notify(mid, parent_pid, self.tasks@));
                        assert(parent_pid == old(self).tasks()[old(self).cur() as int]->0.parent_pid);
                        assert(exit_post(old(self).tasks(), old(self).cur() as int, status, self.tasks@));
                    }
                    return;
                }
                k = k + 1;
            }
        }
        proof {
            assert(mid.len() == old(self).tasks().len());
            assert(mid[idx as int] matches Some(zz) && zombie_of(t, status, zz));
            assert(exit_mid(old(self).tasks(), idx as int, status, mid));
        }
    }

    /// Terminate the current task with `status`: it becomes a zombie with
    /// every descriptor closed, its children go to init, its parent gets
    /// SIGCHLD and is woken (see `exit_post`); then the scheduler picks the
    /// next task.
    pub fn exit_current(&mut self, status: i32) -> (r: Option<ContextSwitch>)
        requires
            old(self).wf(),
            old(self).tasks()[old(self).cur() as int] is Some,
        ensures
            final(self).wf(),
            exists|mid: Seq<Option<Task<F>>>| exit_post(old(self).tasks(), old(self).cur() as int, status, mid)
                && mid.len() == old(self).tasks().len()
                && #[trigger] Self::schedule_post(mid, old(self).cur(), final(self).tasks(),
                    final(self).cur(), final(self).ticks(), r),
    {
        self.exit_bookkeeping(status);
        let ghost mid = self.tasks@;
        let r = self.schedule();
        assert(Self::schedule_post(mid, old(self).cur(), self.tasks(), self.cur(), self.ticks(), r));
        r
    }
}

/// No task but the one in slot `cur` is running.
pub open spec fn only_current_runs<F>(ts: Seq<Option<Task<F>>>, cur: int) -> bool {
    forall|i: int| 0 <= i < ts.len() && i != cur ==> match #[trigger] ts[i] {
        Some(t) => t.state != TaskState::Running,
        None => true,
    }
}

/// Scheduling keeps at most one task running: the one it leaves current.
pub proof fn lemma_schedule_keeps_one_running<F: Clone>(
    old_ts: Seq<Option<Task<F>>>, old_cur: usize,
    new_ts: Seq<Option<Task<F>>>, new_cur: usize, new_ticks: u64, r: Option<ContextSwitch>,
)
    requires
        old_cur < old_ts.len(),
        old_ts[old_cur as int] is Some,
        only_current_runs(old_ts, old_cur as int),
        Scheduler::<F>::schedule_post(old_ts, old_cur, new_ts, new_cur, new_ticks, r),
    ensures
        only_current_runs(new_ts, new_cur as int),
{
    match r {
        None => {}
        Some(sw) => {
            assert forall|i: int| 0 <= i < new_ts.len() && i != new_cur as int implies match #[trigger] new_ts[i] {
                Some(t) => t.state != TaskState::Running,
                None => true,
            } by {
                if i != old_cur as int {
                    assert(new_ts[i] == old_ts[i]);
                }
            }
        }
    }
}

/// Adding a ready task in the slot `spawn` picks keeps at most one task
/// running.
pub proof fn lemma_spawn_keeps_one_running<F: Clone>(
    old_ts: Seq<Option<Task<F>>>, cur: usize, task: Task<F>, slot: int,
)
    requires
        cur < old_ts.len(),
        old_ts[cur as int] is Some,
        only_current_runs(old_ts, cur as int),
        insertion_slot(old_ts, slot),
    ensures
        only_current_runs((if slot < old_ts.len() {
            old_ts.update(slot, Some(with_state(task, TaskState::Ready)))
        } else {
            old_ts.push(Some(with_state(task, TaskState::Ready)))
        }), cur as int),
{
    let new_ts = if slot < old_ts.len() {
        old_ts.update(slot, Some(with_state(task, TaskState::Ready)))
    } else {
        old_ts.push(Some(with_state(task, TaskState::Ready)))
    };
    assert forall|i: int| 0 <= i < new_ts.len() && i != cur as int implies match #[trigger] new_ts[i] {
        Some(t) => t.state != TaskState::Running,
        None => true,
    } by {
        if i != slot {
            assert(new_ts[i] == old_ts[i]);
        }
    }
}

/// Blocking the current task leaves no task running.
pub proof fn lemma_block_keeps_one_running<F: Clone>(ts: Seq<Option<Task<F>>>, cur: usize)
    requires
        cur < ts.len(),
        only_current_runs(ts, cur as int),
    ensures
        only_current_runs((match ts[cur as int] {
            Some(t) => ts.update(cur as int, Some(with_state(t, TaskState::Blocked))),
            None => ts,
        }), cur as int),
{
}

/// An exit followed by the reschedule keeps at most one task running.
pub proof fn lemma_exit_keeps_one_running<F: Clone>(
    old_ts: Seq<Option<Task<F>>>, cur: usize, status: i32, mid: Seq<Option<Task<F>>>,
    new_ts: Seq<Option<Task<F>>>, new_cur: usize, new_ticks: u64, r: Option<ContextSwitch>,
)
    requires
        cur < old_ts.len(),
        old_ts[cur as int] is Some,
        only_current_runs(old_ts, cur as int),
        exit_post(old_ts, cur as int, status, mid),
        mid.len() == old_ts.len(),
        Scheduler::<F>::schedule_post(mid, cur, new_ts, new_cur, new_ticks, r),
    ensures
        only_current_runs(new_ts, new_cur as int),
{
    let m0 = choose|m0: Seq<Option<Task<F>>>| #[trigger] exit_mid(old_ts, cur as int, status, m0)
        && exit_notify(m0, old_ts[cur as int]->0.parent_pid, mid);
    assert(only_current_runs(m0, cur as int)) by {
        assert forall|i: int| 0 <= i < m0.len() && i != cur as int implies match #[trigger] m0[i] {
            Some(t) => t.state != TaskState::Running,
            None => true,
        } by {
            assert(m0[i] == match old_ts[i] {
                Some(u) => Some(reparented(u, old_ts[cur as int]->0.pid)),
                None => None,
            });
        }
    }
    assert(only_current_runs(mid, cur as int)) by {
        let parent = old_ts[cur as int]->0.parent_pid;
        if parent != 0 && exists|i: int| #[trigger] pid_at(m0, i, parent) {
            let k = choose|k: int| #[trigger] pid_at(m0, k, parent)
                && (forall|j: int| 0 <= j < k ==> !#[trigger] pid_at(m0, j, parent))
                && mid == m0.update(k, Some(signalled(m0[k]->0, Signal::SIGCHLD)));
            assert forall|i: int| 0 <= i < mid.len() && i != cur as int implies match #[trigger] mid[i] {
                Some(t) => t.state != TaskState::Running,
                None => true,
            } by {
                if i != k {
                    assert(mid[i] == m0[i]);
                } else {
                    assert(m0[k] is Some);
                }
            }
        }
    }
    assert(mid[cur as int] is Some);
    lemma_schedule_keeps_one_running(mid, cur, new_ts, new_cur, new_ticks, r);
}

} // verus!
