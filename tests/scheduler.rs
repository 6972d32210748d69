use libkernel::exception::ExceptionContext;
use libkernel::process::{
    add_kernel_process, add_user_process, Stack, Task, TaskState, Wakeup, KERNEL_SPSR, USER_SPSR,
};
use libkernel::sched::{tlb_flush_for, Descheduled, Scheduler};
use libkernel::syscall::{handle, Syscall, SYS_EXIT, SYS_SLEEP};

const TICK_US: u64 = 200_000;

fn stack_at(i: usize) -> Stack {
    Stack::new(0x10_0000 + i * 0x1000).unwrap()
}

/// Runs `schedule` until a task is installed, letting time pass as the
/// caller's wait-for-interrupt loop would.
fn schedule_until_installed(s: &mut Scheduler, ec: &mut ExceptionContext, now: &mut u64) -> u64 {
    for _ in 0..1000 {
        let pid = s.schedule(ec, *now);
        if pid != 0 {
            return pid;
        }
        *now += 1;
    }
    panic!("no task became ready");
}

#[test]
fn new_tasks_get_ids_from_two() {
    let mut s = Scheduler::new();
    assert_eq!(s.add_task(Task::new(stack_at(0))), Some(2));
    assert_eq!(s.add_task(Task::new(stack_at(1))), Some(3));
    assert_eq!(s.pids(), vec![2, 3]);
    assert_eq!(s.task(0).context.tpidr, 2);
    assert_eq!(s.task(1).context.tpidr, 3);
}

#[test]
fn first_tick_records_boot_thread() {
    let mut s = Scheduler::new();
    s.add_task(Task::new(stack_at(0)));
    let mut ec = ExceptionContext::default();
    ec.elr = 0x8_1234;
    let (d, pid) = s.timer_tick(&mut ec, TICK_US, 0);
    assert_eq!(d, Descheduled { switch: false, flush_tlb: None });
    assert_eq!(pid, 0);
    assert_eq!(ec.tpidr, 1);
    assert_eq!(s.pids(), vec![1, 2]);
    assert!(s.task(0).is_running());
    assert_eq!(s.task(0).context.elr, 0x8_1234);
    assert!(s.task(0).stack.is_none());
    // The next tick finds the boot thread and switches to task 2.
    let (d, pid) = s.timer_tick(&mut ec, 2 * TICK_US, 0);
    assert!(d.switch);
    assert_eq!(pid, 2);
    assert_eq!(ec.tpidr, 2);
    assert_eq!(s.pids(), vec![2, 1]);
    assert!(matches!(s.task(1).state, TaskState::Ready));
}

#[test]
fn processes_start_at_entry_on_their_stack() {
    let mut s = Scheduler::new();
    assert_eq!(add_user_process(&mut s, 0x8_4000, stack_at(0)), Some(2));
    assert_eq!(add_kernel_process(&mut s, 0x8_5000, stack_at(1)), Some(3));
    let u = s.task(0);
    assert_eq!(u.context.elr, 0x8_4000);
    assert_eq!(u.context.spsr, USER_SPSR);
    assert_eq!(u.context.sp, 0x10_0000);
    assert_eq!(u.context.tpidr, 2);
    assert_eq!(u.priority, 1);
    assert_eq!(u.counter, 0);
    let k = s.task(1);
    assert_eq!(k.context.spsr, KERNEL_SPSR);
    assert_eq!(k.context.sp, 0x10_1000);
}

#[test]
fn equal_tasks_share_ticks_round_robin() {
    let mut s = Scheduler::new();
    for i in 0..3 {
        s.add_task(Task::new(stack_at(i)));
    }
    let mut ec = s.task(0).context;
    let mut runs = [0u32; 5];
    let k = 30;
    for t in 1..=k {
        let (d, pid) = s.timer_tick(&mut ec, t * TICK_US, 0);
        assert!(d.switch);
        assert!(pid != 0);
        runs[pid as usize] += 1;
    }
    for pid in 2..5 {
        assert!(runs[pid] >= k as u32 / 3 - 1, "task {} ran {} times", pid, runs[pid]);
    }
}

#[test]
fn two_sleeping_tasks_run_equally_often() {
    let mut s = Scheduler::new();
    s.add_task(Task::new(stack_at(0)));
    s.add_task(Task::new(stack_at(1)));
    let mut ec = s.task(0).context;
    let mut now: u64 = 0;
    let mut runs = [0u32; 4];
    for _ in 0..1000 {
        now += TICK_US;
        let (d, mut pid) = s.timer_tick(&mut ec, now, 0);
        if d.switch && pid == 0 {
            pid = schedule_until_installed(&mut s, &mut ec, &mut now);
        }
        if pid != 0 {
            runs[pid as usize] += 1;
        }
        // The running task calls sleep(0).
        ec.gpr[8] = SYS_SLEEP;
        ec.gpr[0] = 0;
        match handle(&mut s, &mut ec, now, 0) {
            Ok(Syscall::Slept(d)) => assert!(d.switch),
            _ => panic!("sleep was not handled"),
        }
        let pid = schedule_until_installed(&mut s, &mut ec, &mut now);
        runs[pid as usize] += 1;
    }
    let (a, b) = (runs[2] as i64, runs[3] as i64);
    assert!(a > 0 && b > 0);
    assert!((a - b).abs() * 20 <= a.max(b), "counts {} and {}", a, b);
}

#[test]
fn sleep_fifty_ms_wakes_within_one_tick() {
    let mut s = Scheduler::new();
    s.add_task(Task::new(stack_at(0)));
    s.add_task(Task::new(stack_at(1)));
    let mut ec = s.task(0).context;
    let start: u64 = 5_000_000;
    ec.gpr[8] = SYS_SLEEP;
    ec.gpr[0] = 50;
    assert!(handle(&mut s, &mut ec, start, 0).is_ok());
    let mut now = start;
    assert_eq!(schedule_until_installed(&mut s, &mut ec, &mut now), 3);
    let mut woken = None;
    for t in 1..=5 {
        let (_, pid) = s.timer_tick(&mut ec, start + t * TICK_US, 0);
        if pid == 2 {
            woken = Some(ec);
            break;
        }
    }
    let ec = woken.expect("the sleeper never woke up");
    assert_eq!(ec.gpr[7], 0);
    assert!(ec.gpr[0] >= 50 && ec.gpr[0] <= 250, "slept {} ms", ec.gpr[0]);
}

#[test]
fn sleeper_is_not_ready_before_its_deadline() {
    let mut t = Task::new(stack_at(0));
    t.state = TaskState::Waiting(Wakeup::sleep(1000, 5));
    assert!(!t.is_ready(6000));
    assert!(t.is_waiting());
    assert!(t.is_ready(6001));
    assert_eq!(t.context.gpr[7], 0);
    assert_eq!(t.context.gpr[0], 5);
    assert!(!t.is_waiting());
}

#[test]
fn sleep_deadline_is_capped() {
    let w = Wakeup::sleep(u64::MAX - 10, 1);
    assert_eq!(w.target, u64::MAX);
    let w = Wakeup::sleep(100, 3);
    assert_eq!(w.begin, 100);
    assert_eq!(w.target, 3100);
}

#[test]
fn exit_of_only_user_task_leaves_kernel_task_running() {
    let mut s = Scheduler::new();
    add_kernel_process(&mut s, 0x8_5000, stack_at(0));
    add_user_process(&mut s, 0x8_4000, stack_at(1));
    let mut ec = s.task(1).context;
    ec.gpr[8] = SYS_EXIT;
    let stack = match handle(&mut s, &mut ec, 0, 0) {
        Ok(Syscall::Exited(stack)) => stack,
        _ => panic!("exit was not handled"),
    };
    assert_eq!(stack, Some(stack_at(1)));
    assert_eq!(stack.unwrap().bottom().as_usize(), 0x10_1000);
    assert_eq!(Stack::layout(), (4096, 16));
    let mut now = 1;
    assert_eq!(schedule_until_installed(&mut s, &mut ec, &mut now), 2);
    for t in 1..100u64 {
        let (_, pid) = s.timer_tick(&mut ec, t * TICK_US, 0);
        assert_ne!(pid, 3);
        assert_eq!(ec.tpidr, 2);
    }
    assert!(!s.pids().contains(&3));
}

#[test]
fn exited_task_becomes_zombie_without_stack() {
    let mut s = Scheduler::new();
    s.add_task(Task::new(stack_at(0)));
    s.add_task(Task::new(stack_at(1)));
    let ec = s.task(0).context;
    assert_eq!(s.exit_task(&ec), Some(stack_at(0)));
    assert_eq!(s.pids(), vec![3, 2]);
    let z = s.task(1);
    assert!(matches!(z.state, TaskState::Zombie));
    assert_eq!(z.counter, 0);
    assert_eq!(z.priority, 0);
    assert!(z.stack.is_none());
}

#[test]
fn exit_of_unknown_frame_changes_nothing() {
    let mut s = Scheduler::new();
    s.add_task(Task::new(stack_at(0)));
    let mut ec = ExceptionContext::default();
    ec.tpidr = 99;
    assert_eq!(s.exit_task(&ec), None);
    assert_eq!(s.pids(), vec![2]);
}

#[test]
fn pass_ages_waiting_and_evicts_zombies() {
    let mut s = Scheduler::new();
    let mut w = Task::new(stack_at(0));
    w.state = TaskState::Waiting(Wakeup { begin: 0, target: 1_000_000 });
    w.counter = 4;
    s.add_task(w);
    let mut z = Task::new(stack_at(1));
    z.exit();
    s.add_task(z);
    let mut ec = ExceptionContext::default();
    assert_eq!(s.schedule(&mut ec, 10), 0);
    assert_eq!(s.pids(), vec![2]);
    assert_eq!(s.task(0).counter, 4 / 2 + 1);
    assert_eq!(ec.tpidr, 0);
}

#[test]
fn slice_left_keeps_the_core() {
    let mut s = Scheduler::new();
    let mut t = Task::new(stack_at(0));
    t.counter = 3;
    s.add_task(t);
    s.add_task(Task::new(stack_at(1)));
    let mut ec = s.task(0).context;
    let (d, pid) = s.timer_tick(&mut ec, TICK_US, 0);
    assert_eq!(d, Descheduled { switch: false, flush_tlb: None });
    assert_eq!(pid, 0);
    assert_eq!(s.task(0).counter, 2);
    assert_eq!(s.pids(), vec![2, 3]);
}

#[test]
fn switched_out_task_asks_for_tlb_flush_when_stack_differs() {
    let mut s = Scheduler::new();
    s.add_task(Task::new(stack_at(0)));
    s.add_task(Task::new(stack_at(1)));
    let mut ec = s.task(0).context;
    let d = s.deschedule(TaskState::Ready, &mut ec, 0x10_0000);
    assert_eq!(d, Descheduled { switch: true, flush_tlb: None });
    let mut ec = s.task(0).context;
    let d = s.deschedule(TaskState::Ready, &mut ec, 0x10_0000);
    assert_eq!(d, Descheduled { switch: true, flush_tlb: Some(0x10_1000) });
}

#[test]
fn tlb_flush_only_for_a_different_stack() {
    let st = Some(Stack::new(0x2000).unwrap());
    assert_eq!(tlb_flush_for(&st, 0x2000), None);
    assert_eq!(tlb_flush_for(&st, 0x3000), Some(0x2000));
    assert_eq!(tlb_flush_for(&None, 0x3000), None);
}

#[test]
fn unknown_syscall_is_refused() {
    let mut s = Scheduler::new();
    s.add_task(Task::new(stack_at(0)));
    let mut ec = s.task(0).context;
    ec.gpr[8] = 7;
    assert!(matches!(handle(&mut s, &mut ec, 0, 0), Err("does not exist")));
    assert_eq!(s.pids(), vec![2]);
    assert!(matches!(s.task(0).state, TaskState::Ready));
}

#[test]
fn stacks_must_be_aligned_and_fit() {
    assert!(Stack::new(0x1008).is_none());
    assert!(Stack::new(usize::MAX - 15).is_none());
    let st = Stack::new(0x4000).unwrap();
    assert_eq!(st.top().as_usize(), 0x5000);
    assert_eq!(st.bottom().as_u64(), 0x4000);
}

#[test]
fn new_task_is_ready_with_zeroed_frame() {
    let t = Task::new(stack_at(0));
    assert!(matches!(t.state, TaskState::Ready));
    assert_eq!(t.counter, 0);
    assert_eq!(t.priority, 1);
    assert_eq!(t.pid, 0);
    assert!(t.context.gpr.iter().all(|r| *r == 0));
    assert!(!t.is_running());
}

#[test]
fn installed_task_owns_the_frame_and_the_front() {
    let mut s = Scheduler::new();
    for i in 0..3 {
        s.add_task(Task::new(stack_at(i)));
    }
    let mut ec = ExceptionContext::default();
    for t in 1..20u64 {
        let (_, pid) = s.timer_tick(&mut ec, t * TICK_US, 0);
        assert_eq!(s.pids()[0], ec.tpidr);
        assert!(s.task(0).is_running());
        if pid != 0 {
            assert_eq!(pid, ec.tpidr);
        }
    }
}

#[test]
fn frame_after_exit_belongs_to_another_task() {
    let mut s = Scheduler::new();
    s.add_task(Task::new(stack_at(0)));
    s.add_task(Task::new(stack_at(1)));
    let mut ec = s.task(0).context;
    assert!(s.exit_task(&ec).is_some());
    let pid = s.schedule(&mut ec, 0);
    assert_eq!(pid, 3);
    assert_eq!(ec.tpidr, 3);
    assert_ne!(ec.tpidr, 2);
}
