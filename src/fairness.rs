//! Round-robin fairness: with every task runnable and no task holding more
//! than one tick of slice, each timer tick hands the core to the next task in
//! the queue, so over `k` ticks each of `n` tasks runs at least `k / n` times.

use vstd::prelude::*;
use vstd::arithmetic::div_mod::lemma_fundamental_div_mod_converse;
use crate::exception::ExceptionContext;
use crate::process::TaskState;
use crate::sched::{lemma_deschedule_wf, lemma_schedule_wf, SchedulerView};

verus! {

/// The scheduler runs round robin from the frame `ec`: at least two tasks,
/// the one at the front owns `ec`, all others are ready, and no task has more
/// than one tick of slice.
pub open spec fn round_robin(v: SchedulerView, ec: ExceptionContext) -> bool {
    &&& v.wf()
    &&& v.queue.len() >= 2
    &&& v.queue[0].pid == ec.tpidr
    &&& forall|i: int| 1 <= i < v.queue.len() ==> (#[trigger] v.queue[i]).state == TaskState::Ready
    &&& forall|i: int| 0 <= i < v.queue.len() ==> (#[trigger] v.queue[i]).counter <= 1
}

/// `k` timer ticks from `v` and `ec`, the `j`-th at time `now(j)` with
/// `TTBR1_EL1` reading `ttbr1(j)`: the final scheduler and frame, and the id of
/// the task that owns the frame after each tick.
pub open spec fn run_ticks(
    v: SchedulerView,
    ec: ExceptionContext,
    now: spec_fn(nat) -> u64,
    ttbr1: spec_fn(nat) -> u64,
    k: nat,
) -> (SchedulerView, ExceptionContext, Seq<u64>)
    decreases k,
{
    if k == 0 {
        (v, ec, Seq::empty())
    } else {
        let (v1, ec1, ran) = run_ticks(v, ec, now, ttbr1, (k - 1) as nat);
        let (v2, ec2) = tick_state(v1, ec1, now((k - 1) as nat), ttbr1((k - 1) as nat));
        (v2, ec2, ran.push(ec2.tpidr))
    }
}

/// The scheduler and the frame after one tick.
#[verifier::opaque]
pub open spec fn tick_state(v: SchedulerView, ec: ExceptionContext, now: u64, ttbr1: u64) -> (SchedulerView, ExceptionContext) {
    let (v2, ec2, _d, _pid) = v.tick(ec, now, ttbr1);
    (v2, ec2)
}

/// How many entries of `ran` are `pid`.
pub open spec fn runs_of(ran: Seq<u64>, pid: u64) -> nat
    decreases ran.len(),
{
    if ran.len() == 0 {
        0
    } else {
        runs_of(ran.drop_last(), pid) + if ran.last() == pid {
            1nat
        } else {
            0nat
        }
    }
}

/// `k` modulo `n`, counted up one tick at a time.
spec fn offset(n: nat, k: nat) -> nat
    decreases k,
{
    if k == 0 {
        0
    } else if offset(n, (k - 1) as nat) + 1 == n {
        0
    } else {
        offset(n, (k - 1) as nat) + 1
    }
}

/// Completed rounds of `n` ticks within `k` ticks.
spec fn rounds(n: nat, k: nat) -> nat
    decreases k,
{
    if k == 0 {
        0
    } else if offset(n, (k - 1) as nat) + 1 == n {
        rounds(n, (k - 1) as nat) + 1
    } else {
        rounds(n, (k - 1) as nat)
    }
}

spec fn wrap(x: int, n: int) -> int {
    if x < n {
        x
    } else {
        x - n
    }
}

/// The offset at which the task first in the queue at the start runs: the
/// one just before its position.
spec fn turn(m: int, n: int) -> int {
    if m == 0 {
        n - 1
    } else {
        m - 1
    }
}

/// One tick in round-robin order moves the front task to the back and gives
/// the core, and the frame, to the next one.
proof fn lemma_tick_rotates(v: SchedulerView, ec: ExceptionContext, now: u64, ttbr1: u64)
    requires
        round_robin(v, ec),
    ensures
        ({
            let (v2, ec2) = tick_state(v, ec, now, ttbr1);
            let n = v.queue.len();
            &&& round_robin(v2, ec2)
            &&& v2.queue.len() == n
            &&& forall|i: int| 0 <= i < n - 1 ==> (#[trigger] v2.queue[i]).pid == v.queue[i + 1].pid
            &&& v2.queue[n - 1].pid == v.queue[0].pid
            &&& ec2.tpidr == v.queue[1].pid
        }),
{
    reveal(tick_state);
    let q = v.queue;
    let n = q.len() as int;
    lemma_deschedule_wf(v, TaskState::Ready, ec, ttbr1);
    let (v1, ec1, d) = v.deschedule(TaskState::Ready, ec, ttbr1);
    assert(v1.queue == q.remove(0).push(
        crate::process::Task { counter: 1, state: TaskState::Ready, context: ec, ..q[0] },
    ));
    assert(d.switch);
    let q1 = v1.queue;
    assert(q1[0] == q[1]);
    assert(q1[0].ready_at(now));
    lemma_schedule_wf(v1, ec1, now);
    let (v2, ec2, pid) = v1.schedule(ec1, now);
    assert(q1.subrange(0, 0) =~= Seq::<crate::process::Task>::empty());
    assert(crate::sched::pass_over(q1.subrange(0, 0)) == Seq::<crate::process::Task>::empty());
    let q2 = v2.queue;
    assert(q2.len() == n);
    assert forall|i: int| 1 <= i < n implies q2[i] == q1[i] by {}
    assert forall|i: int| 0 <= i < n - 1 implies (#[trigger] q2[i]).pid == q[i + 1].pid by {
        if i > 0 {
            assert(q2[i] == q1[i]);
            assert(q1[i] == q[i + 1]);
        }
    }
    assert(q2[n - 1] == q1[n - 1]);
    assert forall|i: int| 1 <= i < n implies (#[trigger] q2[i]).state == TaskState::Ready by {
        assert(q2[i] == q1[i]);
        if i < n - 1 {
            assert(q1[i] == q[i + 1]);
        }
    }
    assert forall|i: int| 0 <= i < n implies (#[trigger] q2[i]).counter <= 1 by {
        if i > 0 {
            assert(q2[i] == q1[i]);
            if i < n - 1 {
                assert(q1[i] == q[i + 1]);
            }
        }
    }
    assert(v2.queue[0].pid == ec2.tpidr) by {
        assert(v1.task_ok(q1[0]));
    }
}

proof fn lemma_offset_step(n: nat, k: nat)
    requires
        n >= 1,
        k >= 1,
        offset(n, (k - 1) as nat) < n,
        k - 1 == rounds(n, (k - 1) as nat) * n + offset(n, (k - 1) as nat),
    ensures
        offset(n, k) < n,
        k == rounds(n, k) * n + offset(n, k),
        offset(n, (k - 1) as nat) + 1 == n ==> offset(n, k) == 0 && rounds(n, k) == rounds(n, (k - 1) as nat) + 1,
        offset(n, (k - 1) as nat) + 1 != n ==> offset(n, k) == offset(n, (k - 1) as nat) + 1 && rounds(n, k) == rounds(
            n,
            (k - 1) as nat,
        ),
{
    let k0 = (k - 1) as nat;
    let r0 = offset(n, k0);
    let q0 = rounds(n, k0);
    if r0 + 1 == n {
        assert(k == (q0 + 1) * n + 0) by (nonlinear_arith)
            requires
                k0 == q0 * n + r0,
                k == k0 + 1,
                r0 + 1 == n,
        ;
    }
}

proof fn lemma_runs_push(ran: Seq<u64>, x: u64, p: u64)
    ensures
        runs_of(ran.push(x), p) == runs_of(ran, p) + if x == p {
            1int
        } else {
            0int
        },
{
    assert(ran.push(x).drop_last() =~= ran);
}

/// One more tick keeps the count of each task's turns ahead of the rounds
/// completed.
proof fn lemma_count_step(c0: int, hit: bool, m: int, n: int, r0: int, r: int, q0: int, q: int)
    requires
        0 <= m < n,
        0 <= r0 < n,
        c0 >= q0 + if r0 > turn(m, n) {
            1int
        } else {
            0int
        },
        hit <==> r0 == turn(m, n),
        r0 + 1 == n ==> r == 0 && q == q0 + 1,
        r0 + 1 != n ==> r == r0 + 1 && q == q0,
    ensures
        c0 + (if hit {
            1int
        } else {
            0int
        }) >= q + if r > turn(m, n) {
            1int
        } else {
            0int
        },
{
}

proof fn lemma_run_ticks(
    v: SchedulerView,
    ec: ExceptionContext,
    now: spec_fn(nat) -> u64,
    ttbr1: spec_fn(nat) -> u64,
    k: nat,
)
    requires
        round_robin(v, ec),
    ensures
        ({
            let (vk, eck, ran) = run_ticks(v, ec, now, ttbr1, k);
            let n = v.queue.len();
            let r = offset(n, k) as int;
            &&& round_robin(vk, eck)
            &&& vk.queue.len() == n
            &&& 0 <= r < n
            &&& k == rounds(n, k) * n + r
            &&& forall|i: int| 0 <= i < n ==> (#[trigger] vk.queue[i]).pid == v.queue[wrap(i + r, n as int)].pid
            &&& forall|m: int|
                0 <= m < n ==> #[trigger] runs_of(ran, v.queue[m].pid) >= rounds(n, k) + if r > turn(m, n as int) {
                    1int
                } else {
                    0int
                }
        }),
    decreases k,
{
    let n = v.queue.len();
    let nn = n as int;
    if k == 0 {
        assert forall|i: int| 0 <= i < n implies (#[trigger] v.queue[i]).pid == v.queue[wrap(i + 0, nn)].pid by {}
        assert(rounds(n, 0) == 0);
        assert(rounds(n, 0) * n == 0) by (nonlinear_arith)
            requires
                rounds(n, 0) == 0,
        ;
        assert(run_ticks(v, ec, now, ttbr1, 0).2 == Seq::<u64>::empty());
        assert forall|m: int| 0 <= m < n implies #[trigger] runs_of(Seq::<u64>::empty(), v.queue[m].pid) >= 0 + if 0 > turn(m, nn) {
            1int
        } else {
            0int
        } by {}
    } else {
        let k0 = (k - 1) as nat;
        lemma_run_ticks(v, ec, now, ttbr1, k0);
        let (v1, ec1, ran1) = run_ticks(v, ec, now, ttbr1, k0);
        lemma_tick_rotates(v1, ec1, now(k0), ttbr1(k0));
        let (v2, ec2) = tick_state(v1, ec1, now(k0), ttbr1(k0));
        let ran = ran1.push(ec2.tpidr);
        assert(run_ticks(v, ec, now, ttbr1, k) == (v2, ec2, ran));
        let r0 = offset(n, k0) as int;
        let r = offset(n, k) as int;
        lemma_offset_step(n, k);
        assert forall|i: int| 0 <= i < n implies (#[trigger] v2.queue[i]).pid == v.queue[wrap(i + r, nn)].pid by {
            if i < n - 1 {
                assert(v2.queue[i].pid == v1.queue[i + 1].pid);
                assert(v1.queue[i + 1].pid == v.queue[wrap(i + 1 + r0, nn)].pid);
            } else {
                assert(v1.queue[0].pid == v.queue[wrap(0 + r0, nn)].pid);
            }
        }
        let w = wrap(1 + r0, nn);
        assert(v1.queue[1].pid == v.queue[w].pid);
        assert(ec2.tpidr == v.queue[w].pid);
        assert forall|m: int| 0 <= m < n implies #[trigger] runs_of(ran, v.queue[m].pid) >= rounds(n, k) + if r > turn(
            m,
            nn,
        ) {
            1int
        } else {
            0int
        } by {
            lemma_runs_push(ran1, ec2.tpidr, v.queue[m].pid);
            if w != m {
                assert(v.queue[w].pid != v.queue[m].pid);
            }
            lemma_count_step(
                runs_of(ran1, v.queue[m].pid) as int,
                ec2.tpidr == v.queue[m].pid,
                m,
                nn,
                r0,
                r,
                rounds(n, k0) as int,
                rounds(n, k) as int,
            );
        }
    }
}

/// Round-robin fairness: from a round-robin state of `n` tasks of equal
/// priority, after `k` ticks (at any times) every task has owned the core
/// after at least `k / n - 1` of them.
pub proof fn lemma_round_robin_fair(
    v: SchedulerView,
    ec: ExceptionContext,
    now: spec_fn(nat) -> u64,
    ttbr1: spec_fn(nat) -> u64,
    k: nat,
)
    requires
        round_robin(v, ec),
        forall|i: int| 0 <= i < v.queue.len() ==> (#[trigger] v.queue[i]).priority == v.queue[0].priority,
    ensures
        forall|m: int|
            0 <= m < v.queue.len() ==> #[trigger] runs_of(run_ticks(v, ec, now, ttbr1, k).2, v.queue[m].pid)
                >= (k / v.queue.len()) as int - 1,
{
    let n = v.queue.len();
    lemma_run_ticks(v, ec, now, ttbr1, k);
    lemma_fundamental_div_mod_converse(k as int, n as int, rounds(n, k) as int, offset(n, k) as int);
}

} // verus!
