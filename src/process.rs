//! Tasks: their stacks, their states and the wake-up condition of a sleeping task.

use vstd::prelude::*;
use vstd::array::spec_array_update;
use crate::exception::ExceptionContext;
use crate::sched::{Scheduler, SchedulerView};

verus! {

/// A physical address.
#[derive(Clone, Copy, Debug, PartialEq, Eq, Structural)]
pub struct PhysicalAddr(pub usize);

impl PhysicalAddr {
    /// Returns the inner address of `self` as a `usize`.
    pub fn as_usize(&self) -> (r: usize)
        ensures
            r == self.0,
    {
        self.0
    }

    /// Returns the inner address of `self` as a `u64`.
    pub fn as_u64(&self) -> (r: u64)
        ensures
            r == self.0 as u64,
    {
        self.0 as u64
    }
}

/// A task stack: `Stack::SIZE` bytes of kernel heap starting at `base`, aligned
/// to `Stack::ALIGN`. The memory itself is obtained from and returned to the
/// heap by the caller; a `Stack` records which region a task owns.
#[derive(Debug, PartialEq, Eq, Structural)]
pub struct Stack {
    base: usize,
}

impl Stack {
    /// The stack size: 4 KiB.
    pub const SIZE: usize = 4096;

    /// The stack alignment: 16 bytes.
    pub const ALIGN: usize = 16;

    /// The lowest address of the region.
    pub closed spec fn base_addr(&self) -> nat {
        self.base as nat
    }

    /// The region is aligned and fits in the address space.
    pub open spec fn wf(&self) -> bool {
        &&& self.base_addr() % 16 == 0
        &&& self.base_addr() + 4096 <= usize::MAX
    }

    /// The size and the alignment of a stack, in bytes.
    pub fn layout() -> (r: (usize, usize))
        ensures
            r == (4096usize, 16usize),
    {
        (Self::SIZE, Self::ALIGN)
    }

    /// Takes ownership of the region that the heap handed out at `base`.
    /// Returns `None` if `base` is not 16-byte aligned or the region would run
    /// past the end of the address space.
    pub fn new(base: usize) -> (r: Option<Stack>)
        ensures
            r is Some <==> (base % 16 == 0 && base + 4096 <= usize::MAX),
            r matches Some(s) ==> s.base_addr() == base && s.wf(),
    {
        if base % Self::ALIGN == 0 && base <= usize::MAX - Self::SIZE {
            Some(Stack { base })
        } else {
            None
        }
    }

    /// Returns the physical address of the top of the stack.
    pub fn top(&self) -> (r: PhysicalAddr)
        requires
            self.wf(),
        ensures
            r.0 == self.base_addr() + 4096,
    {
        PhysicalAddr(self.base + Self::SIZE)
    }

    /// Returns the physical address of the bottom of the stack.
    pub fn bottom(&self) -> (r: PhysicalAddr)
        ensures
            r.0 == self.base_addr(),
    {
        PhysicalAddr(self.base)
    }
}

/// What a sleeping task waits for: the timer passing `target`. Times are in
/// microseconds of the free-running system timer.
#[derive(Clone, Copy, Debug, PartialEq, Eq, Structural)]
pub struct Wakeup {
    /// When the task went to sleep.
    pub begin: u64,
    /// The task becomes ready once the timer is strictly past this time.
    pub target: u64,
}

/// `begin + ms` milliseconds, in microseconds, capped at `u64::MAX`.
pub open spec fn sleep_target(begin: u64, ms: u64) -> int {
    let t = begin + ms * 1000;
    if t > u64::MAX { u64::MAX as int } else { t }
}

/// Whole milliseconds that passed between `begin` and `now`.
pub open spec fn elapsed_ms(begin: u64, now: u64) -> u64 {
    ((now - begin) / 1000) as u64
}

impl Wakeup {
    /// The wake-up condition of `sleep(ms)` issued at time `now`. A deadline
    /// beyond the timer's range is capped at `u64::MAX`, which the timer never
    /// passes.
    pub fn sleep(now: u64, ms: u64) -> (r: Wakeup)
        ensures
            r.begin == now,
            r.target == sleep_target(now, ms),
            r.wf(),
    {
        let target = if ms > (u64::MAX - now) / 1000 {
            u64::MAX
        } else {
            now + ms * 1000
        };
        Wakeup { begin: now, target }
    }

    pub open spec fn wf(&self) -> bool {
        self.begin <= self.target
    }

    /// The condition holds at time `now`.
    pub open spec fn due(&self, now: u64) -> bool {
        now > self.target
    }
}

/// The state of a task.
#[derive(Clone, Copy, Debug, PartialEq, Eq, Structural)]
pub enum TaskState {
    Running,
    Waiting(Wakeup),
    Ready,
    Zombie,
}


/// A schedulable unit of work.
pub struct Task {
    /// The saved register frame; `context.tpidr` doubles as the task id.
    pub context: ExceptionContext,
    pub state: TaskState,
    /// Time slice left, in ticks.
    pub counter: i8,
    /// Static base added to `counter` when a waiting task is aged.
    pub priority: i8,
    pub pid: u64,
    /// The stack the task owns; `None` once it has exited, and for the kernel's
    /// own boot thread, which runs on the boot stack.
    pub stack: Option<Stack>,
}

/// The largest priority for which aging cannot overflow the counter.
pub const MAX_PRIORITY: i8 = 63;

/// The aging formula `(counter >> 1) + priority`, for a non-negative counter.
pub open spec fn aged(counter: i8, priority: i8) -> i8 {
    (counter / 2 + priority) as i8
}

impl Task {
    pub open spec fn wf(&self) -> bool {
        &&& 0 <= self.counter
        &&& 0 <= self.priority <= MAX_PRIORITY
        &&& (self.state matches TaskState::Waiting(w) ==> w.wf())
        &&& (self.stack matches Some(s) ==> s.wf())
    }

    /// The task may run at time `now`.
    pub open spec fn ready_at(&self, now: u64) -> bool {
        match self.state {
            TaskState::Ready => true,
            TaskState::Waiting(w) => w.due(now),
            _ => false,
        }
    }

    /// The task once a readiness poll at `now` has succeeded: a sleeper that
    /// wakes up finds `x7 = 0` (success) and `x0` = the milliseconds it slept.
    pub open spec fn polled(self, now: u64) -> Task {
        match self.state {
            TaskState::Waiting(w) => Task {
                context: ExceptionContext {
                    gpr: spec_array_update(
                        spec_array_update(self.context.gpr, 7, 0u64),
                        0,
                        elapsed_ms(w.begin, now),
                    ),
                    ..self.context
                },
                state: TaskState::Ready,
                ..self
            },
            _ => self,
        }
    }

    /// A fresh task that owns `stack`: ready, with a zeroed frame, counter 0,
    /// priority 1 and no id yet.
    pub fn new(stack: Stack) -> (r: Task)
        requires
            stack.wf(),
        ensures
            r.context.is_zeroed(),
            r.state == TaskState::Ready,
            r.counter == 0,
            r.priority == 1,
            r.pid == 0,
            r.stack == Some(stack),
            r.wf(),
    {
        Task {
            context: ExceptionContext::default(),
            state: TaskState::Ready,
            counter: 0,
            priority: 1,
            pid: 0,
            stack: Some(stack),
        }
    }

    /// Whether the task can be scheduled at time `now`. A waiting task is
    /// polled: if its wake-up time has passed it becomes ready and its result
    /// registers are written.
    pub fn is_ready(&mut self, now: u64) -> (r: bool)
        requires
            old(self).wf(),
        ensures
            r == old(self).ready_at(now),
            r ==> *final(self) == old(self).polled(now),
            !r ==> *final(self) == *old(self),
            final(self).wf(),
    {
        match self.state {
            TaskState::Ready => true,
            TaskState::Waiting(w) => {
                if now > w.target {
                    let ghost g0 = self.context.gpr;
                    self.context.gpr[7] = 0;
                    self.context.gpr[0] = (now - w.begin) / 1000;
                    self.state = TaskState::Ready;
                    proof {
                        let g = spec_array_update(spec_array_update(g0, 7, 0u64), 0, elapsed_ms(w.begin, now));
                        assert(self.context.gpr =~= g);
                    }
                    true
                } else {
                    false
                }
            },
            _ => false,
        }
    }

    pub fn is_waiting(&self) -> (r: bool)
        ensures
            r == (self.state is Waiting),
    {
        match self.state {
            TaskState::Waiting(_) => true,
            _ => false,
        }
    }

    pub fn is_running(&self) -> (r: bool)
        ensures
            r == (self.state is Running),
    {
        match self.state {
            TaskState::Running => true,
            _ => false,
        }
    }

    /// Turns the task into a zombie and gives up its stack, which the caller
    /// returns to the heap.
    pub fn exit(&mut self) -> (r: Option<Stack>)
        ensures
            r == old(self).stack,
            *final(self) == (Task {
                state: TaskState::Zombie,
                counter: 0,
                priority: 0,
                stack: None,
                ..*old(self)
            }),
    {
        self.state = TaskState::Zombie;
        self.counter = 0;
        self.priority = 0;
        self.stack.take()
    }
}


/// Saved program status a user process starts with.
pub const USER_SPSR: u64 = 0b0100;

/// Saved program status a kernel process starts with.
pub const KERNEL_SPSR: u64 = 0b0101;

/// `t` is a process just made from `stack`, to start at `entry` with `spsr`,
/// under id `id`: all other registers zero, the stack pointer at the base of
/// its stack.
pub open spec fn is_new_process(t: Task, id: u64, entry: u64, spsr: u64, stack: Stack) -> bool {
    &&& forall|i: int| 0 <= i < 31 ==> t.context.gpr[i] == 0
    &&& t.context.sp == stack.base_addr()
    &&& t.context.elr == entry
    &&& t.context.spsr == spsr
    &&& t.context.tpidr == id
    &&& t.state == TaskState::Ready
    &&& t.counter == 0
    &&& t.priority == 1
    &&& t.pid == id
    &&& t.stack == Some(stack)
}

/// `after` is `before` with a new process queued at the back, and `r` its id;
/// or, once ids are used up, `before` unchanged and `r == None`.
pub open spec fn process_added(
    before: SchedulerView,
    after: SchedulerView,
    r: Option<u64>,
    entry: u64,
    spsr: u64,
    stack: Stack,
) -> bool {
    if before.last_id == u64::MAX {
        r is None && after == before
    } else {
        let id = (before.last_id + 1) as u64;
        &&& r == Some(id)
        &&& after.last_id == id
        &&& after.booted == before.booted
        &&& after.queue.len() == before.queue.len() + 1
        &&& after.queue.drop_last() == before.queue
        &&& is_new_process(after.queue.last(), id, entry, spsr, stack)
    }
}

/// Queues a user process that starts at `entry` on `stack`.
pub fn add_user_process(sched: &mut Scheduler, entry: u64, stack: Stack) -> (r: Option<u64>)
    requires
        old(sched)@.wf(),
        stack.wf(),
    ensures
        process_added(old(sched)@, final(sched)@, r, entry, USER_SPSR, stack),
        final(sched)@.wf(),
{
    add_process(sched, entry, stack, USER_SPSR)
}

/// Queues a kernel process that starts at `entry` on `stack`.
pub fn add_kernel_process(sched: &mut Scheduler, entry: u64, stack: Stack) -> (r: Option<u64>)
    requires
        old(sched)@.wf(),
        stack.wf(),
    ensures
        process_added(old(sched)@, final(sched)@, r, entry, KERNEL_SPSR, stack),
        final(sched)@.wf(),
{
    add_process(sched, entry, stack, KERNEL_SPSR)
}

fn add_process(sched: &mut Scheduler, entry: u64, stack: Stack, spsr: u64) -> (r: Option<u64>)
    requires
        old(sched)@.wf(),
        stack.wf(),
    ensures
        process_added(old(sched)@, final(sched)@, r, entry, spsr, stack),
        final(sched)@.wf(),
{
    let ghost st = stack;
    let sp = stack.bottom().as_u64();
    let mut task = Task::new(stack);
    task.context.sp = sp;
    task.context.elr = entry;
    task.context.spsr = spsr;
    let r = sched.add_task(task);
    proof {
        if old(sched)@.last_id != u64::MAX {
            assert(final(sched)@.queue.drop_last() =~= old(sched)@.queue);
        }
    }
    r
}

} // verus!
