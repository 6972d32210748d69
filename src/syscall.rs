//! The system-call gate: `svc #0` with the call number in `x8`, arguments in
//! `x0..x5`, the result in `x0` and the status in `x7` (0 = success).

use vstd::prelude::*;
use crate::exception::ExceptionContext;
use crate::process::{elapsed_ms, sleep_target, Stack, Task, TaskState, Wakeup};
use crate::sched::{installed, Descheduled, Scheduler, SchedulerView};

verus! {

/// Call number of `sleep(ms)`.
pub const SYS_SLEEP: u64 = 1;

/// Call number of `exit()`.
pub const SYS_EXIT: u64 = 2;

/// What a system call did to the calling task.
pub enum Syscall {
    /// The caller now waits; the core must schedule another task (and run the
    /// TLB flush if asked).
    Slept(Descheduled),
    /// The caller became a zombie; its stack, if it had one, goes back to the
    /// heap, and the core must schedule another task.
    Exited(Option<Stack>),
}

/// The waiting state of a task that calls `sleep(ms)` at time `now`.
pub open spec fn sleeping(now: u64, ms: u64) -> TaskState {
    TaskState::Waiting(Wakeup { begin: now, target: sleep_target(now, ms) as u64 })
}

/// `sleep(ms)` from the task whose frame is `ec`, at time `now`: the task waits
/// until the timer is past `now + ms` milliseconds.
pub fn sleep_task(sched: &mut Scheduler, ms: u64, ec: &mut ExceptionContext, now: u64, ttbr1: u64) -> (r:
    Descheduled)
    requires
        old(sched)@.wf(),
    ensures
        (final(sched)@, *final(ec), r) == old(sched)@.deschedule(sleeping(now, ms), *old(ec), ttbr1),
        final(sched)@.wf(),
{
    let wakeup = Wakeup::sleep(now, ms);
    sched.deschedule(TaskState::Waiting(wakeup), ec, ttbr1)
}

/// `exit()` from the task whose frame is `ec`.
pub fn exit_task(sched: &mut Scheduler, ec: &ExceptionContext) -> (r: Option<Stack>)
    requires
        old(sched)@.wf(),
    ensures
        (final(sched)@, r) == old(sched)@.exit(*ec),
        final(sched)@.wf(),
{
    sched.exit_task(ec)
}

/// Handles the system call of the task whose frame is `ec`, at time `now`:
/// `x8 = 1` is `sleep(x0)`, `x8 = 2` is `exit()`; any other number is an error
/// and changes nothing.
pub fn handle(sched: &mut Scheduler, ec: &mut ExceptionContext, now: u64, ttbr1: u64) -> (r: Result<
    Syscall,
    &'static str,
>)
    requires
        old(sched)@.wf(),
    ensures
        final(sched)@.wf(),
        old(ec).gpr[8] == SYS_SLEEP ==> ({
            let (s, c, d) = old(sched)@.deschedule(sleeping(now, old(ec).gpr[0]), *old(ec), ttbr1);
            &&& final(sched)@ == s
            &&& *final(ec) == c
            &&& r == Ok::<Syscall, &'static str>(Syscall::Slept(d))
        }),
        old(ec).gpr[8] == SYS_EXIT ==> ({
            let (s, stack) = old(sched)@.exit(*old(ec));
            &&& final(sched)@ == s
            &&& *final(ec) == *old(ec)
            &&& r == Ok::<Syscall, &'static str>(Syscall::Exited(stack))
        }),
        old(ec).gpr[8] != SYS_SLEEP && old(ec).gpr[8] != SYS_EXIT ==> ({
            &&& final(sched)@ == old(sched)@
            &&& *final(ec) == *old(ec)
            &&& r == Err::<Syscall, &'static str>("does not exist")
        }),
{
    let number = ec.gpr[8];
    if number == SYS_SLEEP {
        let ms = ec.gpr[0];
        Ok(Syscall::Slept(sleep_task(sched, ms, ec, now, ttbr1)))
    } else if number == SYS_EXIT {
        Ok(Syscall::Exited(exit_task(sched, ec)))
    } else {
        Err("does not exist")
    }
}

/// A task that called `sleep(ms)` resumes with `x7 = 0` and `x0 >= ms`: once
/// installed at any time `now` at which it is ready, it finds success in `x7`
/// and at least `ms` elapsed milliseconds in `x0`.
pub proof fn lemma_sleep_bound(t: Task, begin: u64, ms: u64, now: u64)
    requires
        t.state == sleeping(begin, ms),
        t.ready_at(now),
    ensures
        installed(t, now).context.gpr[7] == 0,
        installed(t, now).context.gpr[0] >= ms,
        installed(t, now).state == TaskState::Running,
{
    let target = sleep_target(begin, ms);
    assert(now > target);
    assert(target == begin + ms * 1000);
    let e = now - begin;
    assert(e > ms * 1000);
    assert(e / 1000 >= ms) by (nonlinear_arith)
        requires
            e > ms * 1000,
            ms >= 0,
    ;
    let g = installed(t, now).context.gpr;
    assert(g@ == t.context.gpr@.update(7, 0u64).update(0, elapsed_ms(begin, now)));
}

} // verus!
