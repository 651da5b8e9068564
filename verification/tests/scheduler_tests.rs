use lib::task::scheduler::{Scheduler, TIME_QUANTUM};
use lib::task::task::{Pid, Task, TaskState};

fn create_test_task(pid: Pid) -> Task<()> {
    let mut next = pid;
    let mut task = Task::idle(&mut next);
    task.state = TaskState::Ready;
    task
}

#[test]
fn test_scheduler_basic() {
    let mut scheduler: Scheduler<()> = Scheduler::new();
    let mut next: Pid = 0;
    scheduler.init(&mut next);
    assert_eq!(scheduler.current_pid(), 0);
    assert_eq!(scheduler.spawn(create_test_task(100)), Ok(100));
    assert_eq!(scheduler.task_slots(), 2);
    assert!(scheduler.slot_occupied(0));
    assert!(scheduler.slot_occupied(1));
}

#[test]
fn test_scheduler_timer_tick() {
    let mut scheduler: Scheduler<()> = Scheduler::new();
    let mut next: Pid = 0;
    scheduler.init(&mut next);
    for _ in 0..(TIME_QUANTUM - 5) {
        assert!(scheduler.timer_tick().is_none());
    }
    assert_eq!(scheduler.ticks_remaining(), 5);
    scheduler.timer_tick();
    assert_eq!(scheduler.ticks_remaining(), 4);
    for _ in 0..4 {
        scheduler.timer_tick();
    }
    assert_eq!(scheduler.ticks_remaining(), TIME_QUANTUM);
}

#[test]
fn test_scheduler_find_slot() {
    let mut scheduler: Scheduler<()> = Scheduler::new();
    let mut next: Pid = 0;
    scheduler.init(&mut next);
    assert_eq!(scheduler.spawn(create_test_task(100)), Ok(100));
    assert_eq!(scheduler.spawn(create_test_task(101)), Ok(101));
    // Run task 100, let it exit and reap it: its slot becomes the gap.
    assert!(scheduler.yield_current().is_some());
    assert_eq!(scheduler.current_pid(), 100);
    scheduler.exit_current(0);
    let reaped = scheduler.reap_zombie_child(0).unwrap();
    assert_eq!(reaped.pid, 100);
    assert_eq!(scheduler.task_slots(), 3);
    assert!(scheduler.slot_occupied(0));
    assert!(!scheduler.slot_occupied(1));
    assert!(scheduler.slot_occupied(2));
}

#[test]
fn round_robin_switches_to_ready_task() {
    let mut scheduler: Scheduler<()> = Scheduler::new();
    let mut next: Pid = 0;
    scheduler.init(&mut next);
    scheduler.spawn(create_test_task(100)).unwrap();
    let sw = scheduler.yield_current().unwrap();
    assert_eq!(sw.from, 0);
    assert_eq!(sw.to, 1);
    assert_eq!(scheduler.current_pid(), 100);
    let back = scheduler.yield_current().unwrap();
    assert_eq!(back.to, 0);
    assert_eq!(scheduler.current_pid(), 0);
}

#[test]
fn process_group_reads_back_what_was_set() {
    let mut scheduler: Scheduler<()> = Scheduler::new();
    let mut next: Pid = 0;
    scheduler.init(&mut next);
    assert_eq!(scheduler.spawn(create_test_task(100)), Ok(100));
    assert_eq!(scheduler.spawn(create_test_task(101)), Ok(101));
    assert_eq!(scheduler.get_pgid(100), Some(100));
    assert!(scheduler.set_pgid(100, 42));
    assert_eq!(scheduler.get_pgid(100), Some(42));
    assert_eq!(scheduler.get_pgid(101), Some(101));
    assert!(!scheduler.set_pgid(7, 42));
    assert_eq!(scheduler.get_pgid(7), None);
}
