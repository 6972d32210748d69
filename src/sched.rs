//! The round-robin scheduler with counter aging.
//!
//! The scheduler owns every task in a single queue. A timer tick charges the
//! task running on this core ([`Scheduler::deschedule`]); when its slice is
//! used up it goes to the back of the queue and [`Scheduler::schedule`] makes a
//! pass over the queue to install the next ready task at the front.

use vstd::prelude::*;
use std::collections::VecDeque;
use crate::exception::ExceptionContext;
use crate::process::{aged, Stack, Task, TaskState};

verus! {

/// What a pass of the scheduler leaves of a task that it did not install: a
/// waiting task is aged, a zombie is evicted, any other task stays as it is.
pub open spec fn passed(t: Task) -> Seq<Task> {
    match t.state {
        TaskState::Waiting(_) => seq![Task { counter: aged(t.counter, t.priority), ..t }],
        TaskState::Zombie => Seq::empty(),
        _ => seq![t],
    }
}

/// What a pass over the tasks `q`, none of them ready, leaves behind, in order.
pub open spec fn pass_over(q: Seq<Task>) -> Seq<Task>
    decreases q.len(),
{
    if q.len() == 0 {
        Seq::empty()
    } else {
        pass_over(q.drop_last()) + passed(q.last())
    }
}

/// Index of the first task of `q` that is ready at `now`, or `q.len()`.
pub open spec fn first_ready(q: Seq<Task>, now: u64) -> int
    decreases q.len(),
{
    if q.len() == 0 {
        0
    } else if q[0].ready_at(now) {
        0
    } else {
        1 + first_ready(q.drop_first(), now)
    }
}

/// Index of the first task of `q` with id `pid`, or `q.len()`.
pub open spec fn index_of_pid(q: Seq<Task>, pid: u64) -> int
    decreases q.len(),
{
    if q.len() == 0 {
        0
    } else if q[0].pid == pid {
        0
    } else {
        1 + index_of_pid(q.drop_first(), pid)
    }
}

/// The task `t` once it is installed to run at `now`.
pub open spec fn installed(t: Task, now: u64) -> Task {
    Task { state: TaskState::Running, ..t.polled(now) }
}

/// The record made for the kernel's boot thread on the first tick: id 1,
/// running, with the interrupted frame as its context.
pub open spec fn boot_task(ec: ExceptionContext) -> Task {
    Task {
        context: ExceptionContext { tpidr: 1, ..ec },
        state: TaskState::Running,
        counter: 0,
        priority: 1,
        pid: 1,
        stack: None,
    }
}

/// The address that the TLB-flush sequence installs in `TTBR1_EL1` when a task
/// with `stack` is switched out, or `None` if no flush is due: exactly when
/// the stack's base differs from the current `TTBR1_EL1`.
pub open spec fn tlb_flush_target(stack: Option<Stack>, ttbr1: u64) -> Option<u64> {
    match stack {
        Some(s) => if s.base_addr() != ttbr1 {
            Some(s.base_addr() as u64)
        } else {
            None
        },
        None => None,
    }
}

/// No two tasks of `q` share an id.
pub open spec fn unique_pids(q: Seq<Task>) -> bool {
    forall|i: int, j: int| 0 <= i < q.len() && 0 <= j < q.len() && i != j ==> q[i].pid != q[j].pid
}

/// What descheduling decided.
#[derive(Clone, Copy, Debug, PartialEq, Eq, Structural)]
pub struct Descheduled {
    /// The running task gave up the core: a new task must be scheduled.
    pub switch: bool,
    /// Run the TLB-flush sequence with this stack base.
    pub flush_tlb: Option<u64>,
}

/// The scheduler as a mathematical value.
pub struct SchedulerView {
    /// The ready queue, front first.
    pub queue: Seq<Task>,
    /// The last task id handed out.
    pub last_id: u64,
    /// The boot thread has been given its task record.
    pub booted: bool,
}

impl SchedulerView {
    /// A task as the queue may hold it: its saved frame carries its id, so
    /// the frame installed from it is found again by the next tick.
    pub open spec fn task_ok(self, t: Task) -> bool {
        &&& t.wf()
        &&& t.context.tpidr == t.pid
        &&& 1 <= t.pid <= self.last_id
        &&& (t.pid == 1 ==> self.booted)
    }

    pub open spec fn wf(self) -> bool {
        &&& self.last_id >= 1
        &&& forall|i: int| 0 <= i < self.queue.len() ==> self.task_ok(#[trigger] self.queue[i])
        &&& unique_pids(self.queue)
    }

    /// Adding `task`: it gets the next id, in its record and its frame, and
    /// joins the back of the queue. `None` once the ids are used up.
    pub open spec fn add(self, task: Task) -> (SchedulerView, Option<u64>) {
        if self.last_id == u64::MAX {
            (self, None)
        } else {
            let id = (self.last_id + 1) as u64;
            let t = Task { pid: id, context: ExceptionContext { tpidr: id, ..task.context }, ..task };
            (SchedulerView { queue: self.queue.push(t), last_id: id, ..self }, Some(id))
        }
    }

    /// Charging one tick to, or switching out, the task whose frame is `ec`,
    /// which moves to state `update`.
    pub open spec fn deschedule(self, update: TaskState, ec: ExceptionContext, ttbr1: u64) -> (
        SchedulerView,
        ExceptionContext,
        Descheduled,
    ) {
        let q = self.queue;
        let i = index_of_pid(q, ec.tpidr);
        if i < q.len() {
            let t = q[i];
            if update == TaskState::Ready && t.counter > 1 {
                (
                    SchedulerView { queue: q.update(i, Task { counter: (t.counter - 1) as i8, ..t }), ..self },
                    ec,
                    Descheduled { switch: false, flush_tlb: None },
                )
            } else {
                (
                    SchedulerView {
                        queue: q.remove(i).push(Task { counter: 1, state: update, context: ec, ..t }),
                        ..self
                    },
                    ec,
                    Descheduled { switch: true, flush_tlb: tlb_flush_target(t.stack, ttbr1) },
                )
            }
        } else if !self.booted {
            let b = boot_task(ec);
            (
                SchedulerView { queue: seq![b] + q, booted: true, ..self },
                b.context,
                Descheduled { switch: false, flush_tlb: None },
            )
        } else {
            (self, ec, Descheduled { switch: true, flush_tlb: None })
        }
    }

    /// One pass over the queue at time `now`: the first ready task is
    /// installed at the front and its frame loaded; the tasks passed over go to
    /// the back. The result is the id of the installed task, or 0.
    pub open spec fn schedule(self, ec: ExceptionContext, now: u64) -> (SchedulerView, ExceptionContext, u64) {
        let q = self.queue;
        let k = first_ready(q, now);
        if k < q.len() {
            let t = installed(q[k], now);
            (
                SchedulerView {
                    queue: seq![t] + q.subrange(k + 1, q.len() as int) + pass_over(q.subrange(0, k)),
                    ..self
                },
                t.context,
                t.pid,
            )
        } else {
            (SchedulerView { queue: pass_over(q), ..self }, ec, 0)
        }
    }

    /// The task whose frame is `ec` exits: it becomes a zombie at the back of
    /// the queue, with `ec` saved, and hands back its stack.
    pub open spec fn exit(self, ec: ExceptionContext) -> (SchedulerView, Option<Stack>) {
        let q = self.queue;
        let i = index_of_pid(q, ec.tpidr);
        if i < q.len() {
            let t = q[i];
            (
                SchedulerView {
                    queue: q.remove(i).push(
                        Task { state: TaskState::Zombie, counter: 0, priority: 0, stack: None, context: ec, ..t },
                    ),
                    ..self
                },
                t.stack,
            )
        } else {
            (self, None)
        }
    }

    /// A timer tick: the running task is charged, and if it gives up the core
    /// one pass looks for the next task. The last component is the id of the
    /// task installed, or 0.
    pub open spec fn tick(self, ec: ExceptionContext, now: u64, ttbr1: u64) -> (
        SchedulerView,
        ExceptionContext,
        Descheduled,
        u64,
    ) {
        let (s1, ec1, d) = self.deschedule(TaskState::Ready, ec, ttbr1);
        if d.switch {
            let (s2, ec2, pid) = s1.schedule(ec1, now);
            (s2, ec2, d, pid)
        } else {
            (s1, ec1, d, 0)
        }
    }
}


proof fn lemma_first_ready_bounds(q: Seq<Task>, now: u64)
    ensures
        0 <= first_ready(q, now) <= q.len(),
        first_ready(q, now) < q.len() ==> q[first_ready(q, now)].ready_at(now),
        forall|j: int| 0 <= j < first_ready(q, now) ==> !(#[trigger] q[j]).ready_at(now),
    decreases q.len(),
{
    if q.len() > 0 && !q[0].ready_at(now) {
        let r = q.drop_first();
        lemma_first_ready_bounds(r, now);
        assert forall|j: int| 0 <= j < first_ready(q, now) implies !(#[trigger] q[j]).ready_at(now) by {
            if j > 0 {
                assert(q[j] == r[j - 1]);
            }
        }
    }
}

proof fn lemma_index_of_pid_bounds(q: Seq<Task>, pid: u64)
    ensures
        0 <= index_of_pid(q, pid) <= q.len(),
        index_of_pid(q, pid) < q.len() ==> q[index_of_pid(q, pid)].pid == pid,
        forall|j: int| 0 <= j < index_of_pid(q, pid) ==> (#[trigger] q[j]).pid != pid,
    decreases q.len(),
{
    if q.len() > 0 && q[0].pid != pid {
        let r = q.drop_first();
        lemma_index_of_pid_bounds(r, pid);
        assert forall|j: int| 0 <= j < index_of_pid(q, pid) implies (#[trigger] q[j]).pid != pid by {
            if j > 0 {
                assert(q[j] == r[j - 1]);
            }
        }
    }
}

proof fn lemma_pass_over_step(q: Seq<Task>, i: int)
    requires
        0 <= i < q.len(),
    ensures
        pass_over(q.subrange(0, i + 1)) == pass_over(q.subrange(0, i)) + passed(q[i]),
{
    let s = q.subrange(0, i + 1);
    assert(s.drop_last() =~= q.subrange(0, i));
    assert(s.last() == q[i]);
}

/// A pass keeps every task acceptable and the ids unique, and only ever
/// leaves ids that were there before.
proof fn lemma_pass_over_ok(v: SchedulerView, q: Seq<Task>)
    requires
        forall|i: int| 0 <= i < q.len() ==> v.task_ok(#[trigger] q[i]),
        unique_pids(q),
    ensures
        forall|a: int| 0 <= a < pass_over(q).len() ==> v.task_ok(#[trigger] pass_over(q)[a]),
        unique_pids(pass_over(q)),
        forall|a: int|
            0 <= a < pass_over(q).len() ==> exists|b: int|
                0 <= b < q.len() && (#[trigger] pass_over(q)[a]).pid == q[b].pid,
    decreases q.len(),
{
    if q.len() > 0 {
        let r = q.drop_last();
        let t = q.last();
        assert forall|i: int| 0 <= i < r.len() implies v.task_ok(#[trigger] r[i]) by {
            assert(r[i] == q[i]);
        }
        assert(unique_pids(r)) by {
            assert forall|i: int, j: int| 0 <= i < r.len() && 0 <= j < r.len() && i != j implies r[i].pid
                != r[j].pid by {
                assert(r[i] == q[i] && r[j] == q[j]);
            }
        }
        lemma_pass_over_ok(v, r);
        let p = pass_over(r);
        let e = passed(t);
        assert(pass_over(q) == p + e);
        assert(e.len() <= 1);
        assert(e.len() == 1 ==> e[0].pid == t.pid && v.task_ok(e[0]));
        assert forall|a: int| 0 <= a < pass_over(q).len() implies exists|b: int|
            0 <= b < q.len() && (#[trigger] pass_over(q)[a]).pid == q[b].pid by {
            if a < p.len() {
                let b = choose|b: int| 0 <= b < r.len() && p[a].pid == r[b].pid;
                assert(r[b] == q[b]);
            } else {
                assert(pass_over(q)[a] == e[0]);
                assert(q[q.len() - 1] == t);
            }
        }
        assert forall|i: int, j: int|
            0 <= i < pass_over(q).len() && 0 <= j < pass_over(q).len() && i != j implies pass_over(
            q,
        )[i].pid != pass_over(q)[j].pid by {
            if i < p.len() && j >= p.len() {
                let b = choose|b: int| 0 <= b < r.len() && p[i].pid == r[b].pid;
                assert(r[b] == q[b]);
                assert(q[q.len() - 1] == t);
            } else if j < p.len() && i >= p.len() {
                let b = choose|b: int| 0 <= b < r.len() && p[j].pid == r[b].pid;
                assert(r[b] == q[b]);
                assert(q[q.len() - 1] == t);
            }
        }
    }
}

pub proof fn lemma_schedule_wf(v: SchedulerView, ec: ExceptionContext, now: u64)
    requires
        v.wf(),
    ensures
        v.schedule(ec, now).0.wf(),
        v.schedule(ec, now).0.last_id == v.last_id,
        v.schedule(ec, now).0.booted == v.booted,
{
    let q = v.queue;
    let n = q.len() as int;
    lemma_first_ready_bounds(q, now);
    let k = first_ready(q, now);
    if k < n {
        let front = q.subrange(0, k);
        assert forall|i: int| 0 <= i < front.len() implies v.task_ok(#[trigger] front[i]) by {
            assert(front[i] == q[i]);
        }
        lemma_pass_over_ok(v, front);
        let p = pass_over(front);
        let t = installed(q[k], now);
        let rest = q.subrange(k + 1, n);
        let nq = seq![t] + rest + p;
        assert(v.task_ok(q[k]));
        assert(v.task_ok(t));
        assert(nq == v.schedule(ec, now).0.queue);
        assert forall|i: int| 0 <= i < nq.len() implies v.task_ok(#[trigger] nq[i]) by {
            if 1 <= i < 1 + rest.len() {
                assert(nq[i] == q[k + i]);
            } else if i >= 1 + rest.len() {
                assert(nq[i] == p[i - 1 - rest.len()]);
            }
        }
        // Where each entry of the new queue came from in `q`.
        assert forall|i: int| 0 <= i < nq.len() implies exists|b: int|
            0 <= b < n && (#[trigger] nq[i]).pid == q[b].pid && (i == 0 ==> b == k) && (1 <= i < 1
                + rest.len() ==> b == k + i) && (i >= 1 + rest.len() ==> b < k) by {
            if i == 0 {
                assert(nq[i].pid == q[k].pid);
            } else if i < 1 + rest.len() {
                assert(nq[i] == q[k + i]);
            } else {
                assert(nq[i] == p[i - 1 - rest.len()]);
                let b = choose|b: int| 0 <= b < front.len() && p[i - 1 - rest.len()].pid == front[b].pid;
                assert(front[b] == q[b]);
            }
        }
        assert forall|i: int, j: int| 0 <= i < nq.len() && 0 <= j < nq.len() && i != j implies nq[i].pid
            != nq[j].pid by {
            let bi = choose|b: int|
                0 <= b < n && (#[trigger] nq[i]).pid == q[b].pid && (i == 0 ==> b == k) && (1 <= i < 1
                    + rest.len() ==> b == k + i) && (i >= 1 + rest.len() ==> b < k);
            let bj = choose|b: int|
                0 <= b < n && (#[trigger] nq[j]).pid == q[b].pid && (j == 0 ==> b == k) && (1 <= j < 1
                    + rest.len() ==> b == k + j) && (j >= 1 + rest.len() ==> b < k);
            if i >= 1 + rest.len() && j >= 1 + rest.len() {
                let a = i - 1 - rest.len();
                let c = j - 1 - rest.len();
                assert(nq[i] == p[a] && nq[j] == p[c]);
            }
        }
    } else {
        lemma_pass_over_ok(v, q);
    }
}

pub proof fn lemma_deschedule_wf(v: SchedulerView, update: TaskState, ec: ExceptionContext, ttbr1: u64)
    requires
        v.wf(),
        update matches TaskState::Waiting(w) ==> w.wf(),
    ensures
        v.deschedule(update, ec, ttbr1).0.wf(),
        v.deschedule(update, ec, ttbr1).0.last_id == v.last_id,
{
    let q = v.queue;
    lemma_index_of_pid_bounds(q, ec.tpidr);
    let i = index_of_pid(q, ec.tpidr);
    let nq = v.deschedule(update, ec, ttbr1).0.queue;
    if i < q.len() {
        assert(v.task_ok(q[i]));
        if update == TaskState::Ready && q[i].counter > 1 {
            assert forall|a: int| 0 <= a < nq.len() implies v.task_ok(#[trigger] nq[a]) by {
                if a != i {
                    assert(nq[a] == q[a]);
                }
            }
        } else {
            let r = q.remove(i);
            assert forall|a: int| 0 <= a < nq.len() implies v.task_ok(#[trigger] nq[a]) by {
                if a < r.len() {
                    assert(nq[a] == r[a]);
                    if a < i {
                        assert(r[a] == q[a]);
                    } else {
                        assert(r[a] == q[a + 1]);
                    }
                }
            }
            assert forall|a: int, b: int| 0 <= a < nq.len() && 0 <= b < nq.len() && a != b implies nq[a].pid
                != nq[b].pid by {
                let ia = if a == r.len() { i } else if a < i { a } else { a + 1 };
                let ib = if b == r.len() { i } else if b < i { b } else { b + 1 };
                assert(nq[a].pid == q[ia].pid);
                assert(nq[b].pid == q[ib].pid);
            }
        }
    } else if !v.booted {
        let b = boot_task(ec);
        let nv = v.deschedule(update, ec, ttbr1).0;
        assert(nq == seq![b] + q);
        assert forall|a: int| 0 <= a < nq.len() implies nv.task_ok(#[trigger] nq[a]) by {
            if a > 0 {
                assert(nq[a] == q[a - 1]);
                assert(v.task_ok(q[a - 1]));
            }
        }
        assert forall|a: int, c: int| 0 <= a < nq.len() && 0 <= c < nq.len() && a != c implies nq[a].pid
            != nq[c].pid by {
            if a > 0 {
                assert(nq[a] == q[a - 1]);
                assert(v.task_ok(q[a - 1]));
            }
            if c > 0 {
                assert(nq[c] == q[c - 1]);
                assert(v.task_ok(q[c - 1]));
            }
        }
    }
}

proof fn lemma_exit_wf(v: SchedulerView, ec: ExceptionContext)
    requires
        v.wf(),
    ensures
        v.exit(ec).0.wf(),
        v.exit(ec).0.last_id == v.last_id,
        v.exit(ec).0.booted == v.booted,
{
    let q = v.queue;
    lemma_index_of_pid_bounds(q, ec.tpidr);
    let i = index_of_pid(q, ec.tpidr);
    let nq = v.exit(ec).0.queue;
    if i < q.len() {
        assert(v.task_ok(q[i]));
        let r = q.remove(i);
        assert forall|a: int| 0 <= a < nq.len() implies v.task_ok(#[trigger] nq[a]) by {
            if a < r.len() {
                assert(nq[a] == r[a]);
                if a < i {
                    assert(r[a] == q[a]);
                } else {
                    assert(r[a] == q[a + 1]);
                }
            }
        }
        assert forall|a: int, b: int| 0 <= a < nq.len() && 0 <= b < nq.len() && a != b implies nq[a].pid
            != nq[b].pid by {
            let ia = if a == r.len() { i } else if a < i { a } else { a + 1 };
            let ib = if b == r.len() { i } else if b < i { b } else { b + 1 };
            assert(nq[a].pid == q[ia].pid);
            assert(nq[b].pid == q[ib].pid);
        }
    }
}


/// Decides whether switching out a task with `stack` needs the TLB-flush
/// sequence, and with which address: only when the stack's base differs from
/// the current `TTBR1_EL1` value `ttbr1`.
pub fn tlb_flush_for(stack: &Option<Stack>, ttbr1: u64) -> (r: Option<u64>)
    ensures
        r == tlb_flush_target(*stack, ttbr1),
{
    match stack {
        Some(s) => {
            let base = s.bottom().as_u64();
            if base != ttbr1 {
                Some(base)
            } else {
                None
            }
        },
        None => None,
    }
}

/// The ready queue and the id counter.
pub struct Scheduler {
    processes: VecDeque<Task>,
    last_id: u64,
    booted: bool,
}

impl View for Scheduler {
    type V = SchedulerView;

    closed spec fn view(&self) -> SchedulerView {
        SchedulerView { queue: self.processes@, last_id: self.last_id, booted: self.booted }
    }
}

impl Scheduler {
    /// Returns a new `Scheduler` with an empty queue. The first id it hands
    /// out is 2; id 1 is kept for the boot thread.
    pub fn new() -> (r: Scheduler)
        ensures
            r@.queue.len() == 0,
            r@.last_id == 1,
            !r@.booted,
            r@.wf(),
    {
        Scheduler { processes: VecDeque::new(), last_id: 1, booted: false }
    }

    /// Number of tasks in the queue.
    pub fn len(&self) -> (r: usize)
        ensures
            r == self@.queue.len(),
    {
        self.processes.len()
    }

    /// The ids of the queued tasks, front first.
    pub fn pids(&self) -> (r: Vec<u64>)
        ensures
            r@ == self@.queue.map_values(|t: Task| t.pid),
    {
        let mut out: Vec<u64> = Vec::new();
        let n = self.processes.len();
        let mut i: usize = 0;
        while i < n
            invariant
                n == self@.queue.len(),
                i <= n,
                out@ == self@.queue.subrange(0, i as int).map_values(|t: Task| t.pid),
            decreases n - i,
        {
            out.push(self.processes[i].pid);
            i = i + 1;
            assert(out@ =~= self@.queue.subrange(0, i as int).map_values(|t: Task| t.pid));
        }
        assert(self@.queue.subrange(0, n as int) =~= self@.queue);
        out
    }

    /// The task at position `i` of the queue.
    pub fn task(&self, i: usize) -> (r: &Task)
        requires
            i < self@.queue.len(),
        ensures
            *r == self@.queue[i as int],
    {
        &self.processes[i]
    }

    /// Adds `task` to the back of the queue under a fresh id, written into its
    /// record and its frame, and returns that id; `None` once ids run out.
    pub fn add_task(&mut self, task: Task) -> (r: Option<u64>)
        requires
            old(self)@.wf(),
            task.wf(),
        ensures
            (final(self)@, r) == old(self)@.add(task),
            final(self)@.wf(),
    {
        if self.last_id == u64::MAX {
            return None;
        }
        self.last_id = self.last_id + 1;
        let id = self.last_id;
        let mut task = task;
        task.context.tpidr = id;
        task.pid = id;
        self.processes.push_back(task);
        proof {
            let v = old(self)@;
            let nq = self@.queue;
            assert forall|a: int| 0 <= a < nq.len() implies self@.task_ok(#[trigger] nq[a]) by {
                if a < v.queue.len() {
                    assert(v.task_ok(v.queue[a]));
                }
            }
            assert forall|a: int, b: int| 0 <= a < nq.len() && 0 <= b < nq.len() && a != b implies nq[a].pid
                != nq[b].pid by {
                if a < v.queue.len() {
                    assert(v.task_ok(v.queue[a]));
                }
                if b < v.queue.len() {
                    assert(v.task_ok(v.queue[b]));
                }
            }
        }
        Some(id)
    }

    /// Charges one tick to, or switches out, the task whose frame is `ec`
    /// (found by `ec.tpidr`), moving it to `update_state`.
    ///
    /// With `update_state == Ready` a task with slice left keeps the core.
    /// Otherwise it is taken out, gets `ec` as its saved frame and counter 1,
    /// and joins the back of the queue; the result then asks for a switch, and
    /// for the TLB flush if its stack is not the one in `TTBR1_EL1` (`ttbr1`).
    /// On the first tick, when the boot thread has no record yet, one is made
    /// (id 1) and put at the front, the frame's `tpidr` is set to 1 so later
    /// ticks find that record, and the core keeps running it.
    pub fn deschedule(&mut self, update_state: TaskState, ec: &mut ExceptionContext, ttbr1: u64) -> (r:
        Descheduled)
        requires
            old(self)@.wf(),
            update_state matches TaskState::Waiting(w) ==> w.wf(),
        ensures
            (final(self)@, *final(ec), r) == old(self)@.deschedule(update_state, *old(ec), ttbr1),
            final(self)@.wf(),
    {
        let ghost q = self.processes@;
        proof {
            lemma_index_of_pid_bounds(q, ec.tpidr);
            lemma_deschedule_wf(self@, update_state, *ec, ttbr1);
        }
        let n = self.processes.len();
        let mut i: usize = 0;
        while i < n
            invariant
                n == q.len(),
                0 <= i <= n,
                self.processes@ == q,
                self@ == old(self)@,
                old(self)@.wf(),
                update_state matches TaskState::Waiting(w) ==> w.wf(),
                *ec == *old(ec),
                forall|j: int| 0 <= j < i ==> (#[trigger] q[j]).pid != ec.tpidr,
                index_of_pid(q, ec.tpidr) >= i,
            decreases n - i,
        {
            proof {
                lemma_index_of_pid_bounds(q, ec.tpidr);
                lemma_deschedule_wf(old(self)@, update_state, *old(ec), ttbr1);
            }
            if self.processes[i].pid == ec.tpidr {
                assert(q[i as int].pid == ec.tpidr);
                assert(index_of_pid(q, ec.tpidr) == i);
                let mut t = self.processes.remove(i).unwrap();
                let keeps = match update_state {
                    TaskState::Ready => t.counter > 1,
                    _ => false,
                };
                if keeps {
                    t.counter = t.counter - 1;
                    self.processes.insert(i, t);
                    proof {
                        assert(self.processes@ =~= q.update(i as int, Task { counter: (q[i as int].counter - 1) as i8, ..q[i as int] }));
                    }
                    return Descheduled { switch: false, flush_tlb: None };
                }
                t.counter = 1;
                t.state = update_state;
                t.context = *ec;
                let flush = tlb_flush_for(&t.stack, ttbr1);
                self.processes.push_back(t);
                return Descheduled { switch: true, flush_tlb: flush };
            }
            i = i + 1;
        }
        if !self.booted {
            ec.tpidr = 1;
            let boot = Task {
                context: *ec,
                state: TaskState::Running,
                counter: 0,
                priority: 1,
                pid: 1,
                stack: None,
            };
            self.processes.push_front(boot);
            self.booted = true;
            return Descheduled { switch: false, flush_tlb: None };
        }
        Descheduled { switch: true, flush_tlb: None }
    }

    /// One pass over the queue at time `now` (timer microseconds). Tasks are
    /// taken from the front in turn: the first that is ready (a sleeper whose
    /// time has passed counts, and gets its results) is marked running, its
    /// frame is loaded into `ec`, it goes back to the front and its id is
    /// returned. Tasks passed over go to the back, a waiting one aged by
    /// `counter := (counter >> 1) + priority`; zombies are evicted. Returns 0
    /// if no task is ready.
    pub fn schedule(&mut self, ec: &mut ExceptionContext, now: u64) -> (r: u64)
        requires
            old(self)@.wf(),
        ensures
            (final(self)@, *final(ec), r) == old(self)@.schedule(*old(ec), now),
            final(self)@.wf(),
            r != 0 ==> final(ec).tpidr == r && final(self)@.queue[0].pid == r && final(self)@.queue[0].state
                == TaskState::Running,
            r == 0 ==> *final(ec) == *old(ec),
    {
        let ghost q = self.processes@;
        proof {
            lemma_first_ready_bounds(q, now);
            lemma_schedule_wf(self@, *ec, now);
        }
        let n = self.processes.len();
        let mut i: usize = 0;
        while i < n
            invariant
                n == q.len(),
                0 <= i <= n,
                old(self)@.wf(),
                old(self)@.queue == q,
                self.processes@ == q.subrange(i as int, n as int) + pass_over(q.subrange(0, i as int)),
                self.last_id == old(self)@.last_id,
                self.booted == old(self)@.booted,
                *ec == *old(ec),
                forall|j: int| 0 <= j < i ==> !(#[trigger] q[j]).ready_at(now),
                first_ready(q, now) >= i,
            decreases n - i,
        {
            proof {
                lemma_first_ready_bounds(q, now);
                lemma_schedule_wf(old(self)@, *old(ec), now);
            }
            let ghost cur = self.processes@;
            assert(cur[0] == q[i as int]);
            let mut t = self.processes.pop_front().unwrap();
            assert(old(self)@.task_ok(q[i as int]));
            let ghost rest = self.processes@;
            assert(rest =~= q.subrange(i + 1, n as int) + pass_over(q.subrange(0, i as int)));
            if t.is_ready(now) {
                assert(q[i as int].ready_at(now));
                assert(first_ready(q, now) == i);
                t.state = TaskState::Running;
                let pid = t.pid;
                *ec = t.context;
                self.processes.push_front(t);
                proof {
                    assert(self.processes@ =~= seq![installed(q[i as int], now)] + q.subrange(i + 1, n as int)
                        + pass_over(q.subrange(0, i as int)));
                }
                return pid;
            }
            proof {
                lemma_pass_over_step(q, i as int);
            }
            if t.is_waiting() {
                t.counter = t.counter / 2 + t.priority;
                self.processes.push_back(t);
                assert(self.processes@ =~= q.subrange(i + 1, n as int) + pass_over(q.subrange(0, i + 1)));
            } else if t.is_running() {
                self.processes.push_back(t);
                assert(self.processes@ =~= q.subrange(i + 1, n as int) + pass_over(q.subrange(0, i + 1)));
            } else {
                assert(self.processes@ =~= q.subrange(i + 1, n as int) + pass_over(q.subrange(0, i + 1)));
            }
            i = i + 1;
        }
        assert(q.subrange(0, n as int) =~= q);
        assert(self.processes@ =~= pass_over(q));
        0
    }

    /// A timer tick on the core whose interrupted frame is `ec`: the running
    /// task is charged, and if it gives up the core one pass looks for the next
    /// task. Returns the decision and the id of the task installed (0 if none:
    /// the caller waits for an interrupt and schedules again).
    pub fn timer_tick(&mut self, ec: &mut ExceptionContext, now: u64, ttbr1: u64) -> (r: (Descheduled, u64))
        requires
            old(self)@.wf(),
        ensures
            ({
                let (s, c, d, pid) = old(self)@.tick(*old(ec), now, ttbr1);
                final(self)@ == s && *final(ec) == c && r == (d, pid)
            }),
            final(self)@.wf(),
            r.1 != 0 ==> final(ec).tpidr == r.1 && final(self)@.queue[0].pid == r.1 && final(self)@.queue[0].state
                == TaskState::Running,
            !r.0.switch && old(self)@.queue.len() > 0 && old(self)@.queue[0].pid == old(ec).tpidr
                ==> final(self)@.queue[0].pid == final(ec).tpidr && final(self)@.queue[0].state
                == old(self)@.queue[0].state,
            !r.0.switch && (forall|i: int|
                0 <= i < old(self)@.queue.len() ==> (#[trigger] old(self)@.queue[i]).pid != old(ec).tpidr)
                ==> final(self)@.queue[0].pid == final(ec).tpidr && final(self)@.queue[0].state
                == TaskState::Running,
    {
        proof {
            lemma_index_of_pid_bounds(self@.queue, ec.tpidr);
            if self@.queue.len() > 0 && self@.queue[0].pid == ec.tpidr {
                assert(index_of_pid(self@.queue, ec.tpidr) == 0);
            }
        }
        let d = self.deschedule(TaskState::Ready, ec, ttbr1);
        if d.switch {
            let pid = self.schedule(ec, now);
            (d, pid)
        } else {
            (d, 0)
        }
    }

    /// The task whose frame is `ec` exits: it becomes a zombie (counter and
    /// priority 0) at the back of the queue with `ec` saved, and its stack is
    /// returned for the caller to give back to the heap.
    pub fn exit_task(&mut self, ec: &ExceptionContext) -> (r: Option<Stack>)
        requires
            old(self)@.wf(),
        ensures
            (final(self)@, r) == old(self)@.exit(*ec),
            final(self)@.wf(),
    {
        let ghost q = self.processes@;
        proof {
            lemma_index_of_pid_bounds(q, ec.tpidr);
            lemma_exit_wf(self@, *ec);
        }
        let n = self.processes.len();
        let mut i: usize = 0;
        while i < n
            invariant
                n == q.len(),
                0 <= i <= n,
                self.processes@ == q,
                self@ == old(self)@,
                old(self)@.wf(),
                forall|j: int| 0 <= j < i ==> (#[trigger] q[j]).pid != ec.tpidr,
                index_of_pid(q, ec.tpidr) >= i,
            decreases n - i,
        {
            proof {
                lemma_index_of_pid_bounds(q, ec.tpidr);
                lemma_exit_wf(old(self)@, *ec);
            }
            if self.processes[i].pid == ec.tpidr {
                assert(q[i as int].pid == ec.tpidr);
                assert(index_of_pid(q, ec.tpidr) == i);
                let mut t = self.processes.remove(i).unwrap();
                let stack = t.exit();
                t.context = *ec;
                self.processes.push_back(t);
                return stack;
            }
            i = i + 1;
        }
        None
    }
}


/// A task that has exited stays a zombie until a pass evicts it: a pass never
/// installs it, and whatever record of it the pass leaves is still a zombie.
/// Together with `lemma_exit_hands_back_stack` this means an exited task never
/// runs again.
pub proof fn lemma_zombie_never_scheduled(v: SchedulerView, pid: u64, ec: ExceptionContext, now: u64)
    requires
        v.wf(),
        forall|i: int| 0 <= i < v.queue.len() && (#[trigger] v.queue[i]).pid == pid ==> v.queue[i].state
            == TaskState::Zombie,
    ensures
        pid != 0 ==> v.schedule(ec, now).2 != pid,
        v.schedule(ec, now).2 != 0 ==> v.schedule(ec, now).1.tpidr != pid,
        forall|i: int|
            0 <= i < v.schedule(ec, now).0.queue.len() && (#[trigger] v.schedule(ec, now).0.queue[i]).pid
                == pid ==> v.schedule(ec, now).0.queue[i].state == TaskState::Zombie,
{
    let q = v.queue;
    let n = q.len() as int;
    lemma_first_ready_bounds(q, now);
    let k = first_ready(q, now);
    let nq = v.schedule(ec, now).0.queue;
    lemma_pass_over_zombies(q.subrange(0, if k < n { k } else { n }), pid);
    if k < n {
        assert(q[k].ready_at(now));
        let p = pass_over(q.subrange(0, k));
        let rest = q.subrange(k + 1, n);
        assert forall|i: int| 0 <= i < nq.len() && (#[trigger] nq[i]).pid == pid implies nq[i].state
            == TaskState::Zombie by {
            if i == 0 {
                assert(nq[0].pid == q[k].pid);
            } else if i < 1 + rest.len() {
                assert(nq[i] == q[k + i]);
            } else {
                assert(nq[i] == p[i - 1 - rest.len()]);
            }
        }
    } else {
        assert(q.subrange(0, n) =~= q);
    }
}

proof fn lemma_pass_over_zombies(q: Seq<Task>, pid: u64)
    requires
        forall|i: int| 0 <= i < q.len() && (#[trigger] q[i]).pid == pid ==> q[i].state == TaskState::Zombie,
    ensures
        forall|i: int|
            0 <= i < pass_over(q).len() && (#[trigger] pass_over(q)[i]).pid == pid ==> pass_over(q)[i].state
                == TaskState::Zombie,
    decreases q.len(),
{
    if q.len() > 0 {
        let r = q.drop_last();
        assert forall|i: int| 0 <= i < r.len() && (#[trigger] r[i]).pid == pid implies r[i].state
            == TaskState::Zombie by {
            assert(r[i] == q[i]);
        }
        lemma_pass_over_zombies(r, pid);
        assert(q[q.len() - 1] == q.last());
    }
}

/// After `exit`, the task's stack is handed back (for the caller to return to
/// the heap), its record keeps no stack, and it is a zombie: the only record
/// with its id.
pub proof fn lemma_exit_hands_back_stack(v: SchedulerView, ec: ExceptionContext)
    requires
        v.wf(),
        exists|i: int| 0 <= i < v.queue.len() && (#[trigger] v.queue[i]).pid == ec.tpidr,
    ensures
        ({
            let (v1, stack) = v.exit(ec);
            &&& stack == v.queue[index_of_pid(v.queue, ec.tpidr)].stack
            &&& v1.queue.len() == v.queue.len()
            &&& v1.queue.last().pid == ec.tpidr
            &&& v1.queue.last().stack is None
            &&& forall|i: int| 0 <= i < v1.queue.len() && (#[trigger] v1.queue[i]).pid == ec.tpidr
                ==> v1.queue[i].state == TaskState::Zombie
        }),
{
    let q = v.queue;
    lemma_index_of_pid_bounds(q, ec.tpidr);
    lemma_exit_wf(v, ec);
    let i = index_of_pid(q, ec.tpidr);
    let w = choose|i: int| 0 <= i < v.queue.len() && (#[trigger] v.queue[i]).pid == ec.tpidr;
    assert(i < q.len());
    let v1 = v.exit(ec).0;
    let nq = v1.queue;
    assert forall|a: int| 0 <= a < nq.len() && (#[trigger] nq[a]).pid == ec.tpidr implies nq[a].state
        == TaskState::Zombie by {
        if a != nq.len() - 1 {
            assert(nq[a].pid != nq[nq.len() - 1].pid);
        }
    }
}

} // verus!
