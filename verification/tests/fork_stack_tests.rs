use lib::syscall::error::SyscallError;
use lib::task::fork::{clone_child, fork_child, CLONE_THREAD, CLONE_VM};
use lib::task::process::{spawned_child, start_user_process, ElfImage, UserProcess, UserRegs};
use lib::task::task::{Pid, Task, TaskState};
use lib::task::user_stack::user_stack_image;

fn user_task() -> Task<()> {
    let mut next: Pid = 7;
    let mut t: Task<()> = Task::idle(&mut next);
    t.page_table_phys = 0x1000;
    t.umask = 0o077;
    t
}

#[test]
fn fork_copies_the_parent() {
    let parent = user_task();
    let c = fork_child(&parent, 100, 0x2000, 0x10_0000, 0xdead).unwrap();
    assert_eq!(c.pid, 100);
    assert_eq!(c.parent_pid, 7);
    assert_eq!(c.state, TaskState::Created);
    assert_eq!(c.page_table_phys, 0x2000);
    assert_eq!(c.kernel_stack_base, 0x10_0000 + 4096);
    assert_eq!(c.context.rip, 0xdead);
    assert_eq!(c.context.rsp, 0x10_0000 + 4096 + 65536 - 80);
    assert_eq!(c.umask, 0o077);
    assert_eq!(c.signals.pending, 0);
    let mut next: Pid = 0;
    let kernel: Task<()> = Task::idle(&mut next);
    assert!(matches!(fork_child(&kernel, 100, 0x2000, 0x10_0000, 0xdead), Err(SyscallError::EPERM)));
}

#[test]
fn clone_shares_for_threads() {
    let parent = user_task();
    let (c, rsp) = clone_child(&parent, CLONE_VM | CLONE_THREAD, 0x7000, 101, 0x3000, 0x20_0000, 0xbeef).unwrap();
    assert_eq!(c.pid, 7);
    assert_eq!(c.page_table_phys, 0x1000);
    assert_eq!(rsp, Some(0x7000));
    let (c, rsp) = clone_child(&parent, 0, 0x7000, 101, 0x3000, 0x20_0000, 0xbeef).unwrap();
    assert_eq!(c.pid, 101);
    assert_eq!(c.page_table_phys, 0x3000);
    assert_eq!(rsp, None);
}

#[test]
fn user_stack_layout() {
    let argv = vec![b"ls".to_vec(), b"-l".to_vec()];
    let envp = vec![b"A=1".to_vec()];
    let (rsp, img) = user_stack_image(0x8000, &argv, &envp).unwrap();
    assert_eq!(rsp, 0x7FC0);
    assert_eq!(img.len(), 64);
    let word = |o: usize| u64::from_le_bytes(img[o..o + 8].try_into().unwrap());
    assert_eq!(word(0), 2);
    assert_eq!(word(8), 0x7FFA);
    assert_eq!(word(16), 0x7FFD);
    assert_eq!(word(24), 0);
    assert_eq!(word(32), 0x7FF6);
    assert_eq!(word(40), 0);
    assert!(img[48..54].iter().all(|b| *b == 0));
    assert_eq!(&img[54..58], b"A=1\0");
    assert_eq!(&img[58..64], b"ls\0-l\0");
    assert!(user_stack_image(40, &argv, &envp).is_none());
}

#[test]
fn elf_process_starts_at_the_entry_with_its_arguments() {
    let image = ElfImage { entry_point: 0x40_1000, stack_virt_top: 0x8000, stack_phys_base: 0x90_0000, segments: vec![(0x50_0000, 0x1800), (0x60_0000, 0x200)] };
    let argv = vec![b"ls".to_vec(), b"-l".to_vec()];
    let envp = vec![b"A=1".to_vec()];
    let name = "a-very-long-program-name-that-is-cut";
    let (p, regs, img): (UserProcess<u32>, UserRegs, Vec<u8>) =
        start_user_process(120, 7, name, &image, &argv, &envp, 0x10_0000, 0x2000, 0xfeed, 0x23, 0x1B);
    assert_eq!((regs.rip, regs.cs, regs.rflags, regs.rsp, regs.ss), (0x40_1000, 0x23, 0x200, 0x7FC0, 0x1B));
    assert_eq!(img.len(), 64);
    assert_eq!(u64::from_le_bytes(img[0..8].try_into().unwrap()), 2);
    let t = &p.task;
    assert_eq!((t.pid, t.parent_pid, t.pgid, t.session_id), (120, 7, 120, 7));
    assert_eq!(t.state, TaskState::Created);
    assert_eq!(t.kernel_stack_base, 0x10_0000 + 4096);
    assert_eq!(t.context.rip, 0xfeed);
    assert_eq!(t.context.rsp, 0x10_0000 + 4096 + 65536 - 40);
    assert_eq!(t.context.rbx, 0x10_0000 + 4096 + 65536);
    assert_eq!(t.page_table_phys, 0x2000);
    assert_eq!(t.umask, 0o022);
    assert_eq!(t.name_len, 31);
    assert_eq!(&t.name[..31], &name.as_bytes()[..31]);
    assert_eq!(t.name[31], 0);
    assert_eq!((t.cwd[0], t.cwd_len), (b'/', 1));
    assert!(t.fd_table.get(0).is_err());
    assert_eq!(p.user_entry, 0x40_1000);
    assert_eq!(p.segment_count, 2);
    assert_eq!(p.segment_bases[..3], [0x50_0000, 0x60_0000, 0]);
    assert_eq!(p.segment_sizes[..3], [0x1800, 0x200, 0]);
}

#[test]
fn spawned_process_inherits_from_its_caller() {
    let image = ElfImage { entry_point: 0x40_1000, stack_virt_top: 0x8000, stack_phys_base: 0, segments: vec![] };
    let (mut p, _, _): (UserProcess<u32>, UserRegs, Vec<u8>) =
        start_user_process(120, 7, "sh", &image, &vec![b"sh".to_vec()], &vec![], 0x10_0000, 0x2000, 0xfeed, 0x23, 0x1B);
    let mut next: Pid = 7;
    let mut parent: Task<u32> = Task::idle(&mut next);
    parent.umask = 0o077;
    parent.creds.uid = 1000;
    parent.cwd[..5].copy_from_slice(b"/home");
    parent.cwd_len = 5;
    assert_eq!(parent.fd_table.alloc_fd(9), Ok(0));
    spawned_child(&mut p, Some(&parent));
    assert_eq!(p.task.umask, 0o077);
    assert_eq!(p.task.creds.uid, 1000);
    assert_eq!(p.task.cwd_len, 5);
    assert_eq!(&p.task.cwd[..5], b"/home");
    assert_eq!(p.task.fd_table.get(0), Ok(9));
    assert!(p.task.fd_table.get(1).is_err());
    assert_eq!(p.task.pid, 120);
    spawned_child(&mut p, None);
    assert_eq!(p.task.umask, 0o022);
    assert_eq!(p.task.creds.uid, 0);
    assert_eq!(p.task.cwd_len, 0);
    assert!(p.task.fd_table.get(0).is_err());
}
