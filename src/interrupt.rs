//! Interrupt-controller bookkeeping: pending bitmasks, handler tables, the
//! dispatch decision for a pending mask, and the register values that enable,
//! disable and route interrupts.

use vstd::prelude::*;
use vstd::std_specs::bits::axiom_u64_trailing_zeros;

verus! {

/// Bit `i` of `m` is set.
pub open spec fn bit(m: u64, i: u64) -> bool {
    (m >> i) & 1u64 == 1u64
}

/// The positions `>= i` of the set bits of `m`, in ascending order.
pub open spec fn set_bits_from(m: u64, i: u64) -> Seq<usize>
    decreases 64 - i,
{
    if i >= 64 {
        Seq::empty()
    } else if bit(m, i) {
        seq![i as usize] + set_bits_from(m, (i + 1) as u64)
    } else {
        set_bits_from(m, (i + 1) as u64)
    }
}

/// The positions of the set bits of `m`, in ascending order.
pub open spec fn set_bits(m: u64) -> Seq<usize> {
    set_bits_from(m, 0)
}

proof fn lemma_skip_clear_bits(m: u64, i: u64, j: u64)
    requires
        i <= j <= 64,
        forall|k: u64| i <= k < j ==> !bit(m, k),
    ensures
        set_bits_from(m, i) == set_bits_from(m, j),
    decreases j - i,
{
    if i < j {
        lemma_skip_clear_bits(m, (i + 1) as u64, j);
        assert(!bit(m, i));
    }
}

proof fn lemma_same_bits_from(m1: u64, m2: u64, i: u64)
    requires
        i <= 64,
        forall|k: u64| i <= k < 64 ==> bit(m1, k) == bit(m2, k),
    ensures
        set_bits_from(m1, i) == set_bits_from(m2, i),
    decreases 64 - i,
{
    if i < 64 {
        lemma_same_bits_from(m1, m2, (i + 1) as u64);
        assert(bit(m1, i) == bit(m2, i));
    }
}

/// Clearing the lowest set bit `t` of `m` takes `t` off the front of its set
/// bits.
proof fn lemma_clear_lowest(m: u64, t: u64)
    requires
        t < 64,
        bit(m, t),
        forall|k: u64| k < t ==> !bit(m, k),
    ensures
        set_bits(m) == seq![t as usize] + set_bits(m & !(1u64 << t)),
{
    let m2 = m & !(1u64 << t);
    lemma_skip_clear_bits(m, 0, t);
    assert forall|k: u64| (t + 1) as u64 <= k < 64 implies bit(m, k) == bit(m2, k) by {
        assert(t < k < 64 ==> (((m & !(1u64 << t)) >> k) & 1u64 == 1u64) == ((m >> k) & 1u64 == 1u64))
            by (bit_vector);
    }
    lemma_same_bits_from(m, m2, (t + 1) as u64);
    assert forall|k: u64| 0 <= k < (t + 1) as u64 implies !bit(m2, k) by {
        if k < t {
            assert(!bit(m, k));
            assert((m >> k) & 1u64 != 1u64 ==> ((m & !(1u64 << t)) >> k) & 1u64 != 1u64)
                by (bit_vector);
        } else {
            assert(k == t);
            assert(t < 64 ==> ((m & !(1u64 << t)) >> t) & 1u64 != 1u64) by (bit_vector);
        }
    }
    lemma_skip_clear_bits(m2, 0, (t + 1) as u64);
}

proof fn lemma_set_bits_from_shape(m: u64, i: u64)
    requires
        i <= 64,
    ensures
        forall|a: int| 0 <= a < set_bits_from(m, i).len() ==> i <= #[trigger] set_bits_from(m, i)[a] < 64,
        forall|a: int, b: int|
            0 <= a < b < set_bits_from(m, i).len() ==> set_bits_from(m, i)[a] < set_bits_from(m, i)[b],
        forall|k: u64| i <= k < 64 ==> (set_bits_from(m, i).contains(k as usize) <==> bit(m, k)),
    decreases 64 - i,
{
    if i < 64 {
        let j = (i + 1) as u64;
        lemma_set_bits_from_shape(m, j);
        let r = set_bits_from(m, j);
        let s = set_bits_from(m, i);
        if bit(m, i) {
            assert(s == seq![i as usize] + r);
            assert forall|a: int| 0 <= a < s.len() implies i <= #[trigger] s[a] < 64 by {
                if a > 0 {
                    assert(s[a] == r[a - 1]);
                }
            }
            assert forall|a: int, b: int| 0 <= a < b < s.len() implies s[a] < s[b] by {
                assert(s[b] == r[b - 1]);
                if a > 0 {
                    assert(s[a] == r[a - 1]);
                }
            }
            assert forall|k: u64| i <= k < 64 implies (s.contains(k as usize) <==> bit(m, k)) by {
                if k > i {
                    if s.contains(k as usize) {
                        let a = choose|a: int| 0 <= a < s.len() && s[a] == k as usize;
                        assert(a > 0);
                        assert(r[a - 1] == k as usize);
                    }
                    if r.contains(k as usize) {
                        let a = choose|a: int| 0 <= a < r.len() && r[a] == k as usize;
                        assert(s[a + 1] == k as usize);
                    }
                } else {
                    assert(s[0] == k as usize);
                }
            }
        } else {
            assert forall|k: u64| i <= k < 64 implies (s.contains(k as usize) <==> bit(m, k)) by {
                if k == i && s.contains(k as usize) {
                    let a = choose|a: int| 0 <= a < s.len() && s[a] == k as usize;
                    assert(r[a] >= j);
                }
            }
        }
    }
}

/// Iterating a pending mask yields exactly the positions of its set bits, in
/// strictly ascending order (so each once), all below 64.
pub proof fn lemma_pending_exact(m: u64)
    ensures
        forall|a: int| 0 <= a < set_bits(m).len() ==> #[trigger] set_bits(m)[a] < 64,
        forall|a: int, b: int| 0 <= a < b < set_bits(m).len() ==> set_bits(m)[a] < set_bits(m)[b],
        forall|k: u64| k < 64 ==> (set_bits(m).contains(k as usize) <==> bit(m, k)),
{
    lemma_set_bits_from_shape(m, 0);
}

/// A bitmask of pending IRQ numbers, handed out lowest first.
pub struct PendingIRQs {
    bitmask: u64,
}

impl View for PendingIRQs {
    type V = u64;

    closed spec fn view(&self) -> u64 {
        self.bitmask
    }
}

impl PendingIRQs {
    pub fn new(bitmask: u64) -> (r: PendingIRQs)
        ensures
            r@ == bitmask,
    {
        PendingIRQs { bitmask }
    }

    /// The lowest pending IRQ number, which is then no longer pending; `None`
    /// when nothing is left.
    pub fn next(&mut self) -> (r: Option<usize>)
        ensures
            r is None <==> old(self)@ == 0,
            r is None ==> final(self)@ == old(self)@,
            r matches Some(i) ==> i < 64 && final(self)@ == old(self)@ & !(1u64 << i as u64),
            set_bits(old(self)@) == match r {
                None => Seq::<usize>::empty(),
                Some(i) => seq![i] + set_bits(final(self)@),
            },
            set_bits(final(self)@).len() <= set_bits(old(self)@).len(),
    {
        let m = self.bitmask;
        let tz = m.trailing_zeros();
        proof {
            axiom_u64_trailing_zeros(m);
        }
        if tz == 64 {
            proof {
                assert forall|k: u64| 0 <= k < 64 implies !bit(m, k) by {
                    assert(m == 0 ==> (m >> k) & 1u64 == 0u64) by (bit_vector);
                }
                lemma_skip_clear_bits(m, 0, 64);
            }
            return None;
        }
        let t = tz as u64;
        self.bitmask = m & !(1u64 << t);
        proof {
            assert forall|k: u64| k < t implies !bit(m, k) by {
                assert((m >> k) & 1u64 == 0u64);
            }
            lemma_clear_lowest(m, t);
        }
        Some(tz as usize)
    }

    /// All the pending IRQ numbers, lowest first.
    pub fn to_vec(&self) -> (r: Vec<usize>)
        ensures
            r@ == set_bits(self@),
    {
        let ghost all = set_bits(self@);
        let mut rest = PendingIRQs { bitmask: self.bitmask };
        let mut out: Vec<usize> = Vec::new();
        loop
            invariant
                out@ + set_bits(rest@) == all,
                all == set_bits(self@),
            decreases set_bits(rest@).len(),
        {
            match rest.next() {
                Some(i) => {
                    out.push(i);
                    proof {
                        assert(out@ + set_bits(rest@) =~= all);
                    }
                },
                None => {
                    assert(out@ =~= all);
                    return out;
                },
            }
        }
    }
}


/// Highest local (per-core) IRQ number.
pub const MAX_LOCAL_IRQ_NUMBER: usize = 11;

/// Highest peripheral IRQ number.
pub const MAX_PERIPHERAL_IRQ_NUMBER: usize = 63;

/// Number of local IRQ handler slots per core.
pub const NUM_LOCAL_IRQS: usize = 12;

/// Number of peripheral IRQ handler slots.
pub const NUM_PERIPHERAL_IRQS: usize = 64;

/// Number of cores, each with its own local handler table.
pub const NUM_CORES: usize = 4;

/// The local IRQ number that the GPU forwards; firing without a handler is
/// benign.
pub const GPU_FORWARDED_IRQ: usize = 8;

/// An IRQ number of one of the two controllers.
#[derive(Clone, Copy, Debug, PartialEq, Eq, Structural)]
pub enum IRQNumber {
    Local(usize),
    Peripheral(usize),
}

impl IRQNumber {
    pub open spec fn wf(self) -> bool {
        match self {
            IRQNumber::Local(n) => n <= MAX_LOCAL_IRQ_NUMBER,
            IRQNumber::Peripheral(n) => n <= MAX_PERIPHERAL_IRQ_NUMBER,
        }
    }

    /// Local IRQ `n`, if `n <= 11`.
    pub fn local(n: usize) -> (r: Option<IRQNumber>)
        ensures
            r is Some <==> n <= MAX_LOCAL_IRQ_NUMBER,
            r matches Some(x) ==> x == IRQNumber::Local(n) && x.wf(),
    {
        if n <= MAX_LOCAL_IRQ_NUMBER {
            Some(IRQNumber::Local(n))
        } else {
            None
        }
    }

    /// Peripheral IRQ `n`, if `n <= 63`.
    pub fn peripheral(n: usize) -> (r: Option<IRQNumber>)
        ensures
            r is Some <==> n <= MAX_PERIPHERAL_IRQ_NUMBER,
            r matches Some(x) ==> x == IRQNumber::Peripheral(n) && x.wf(),
    {
        if n <= MAX_PERIPHERAL_IRQ_NUMBER {
            Some(IRQNumber::Peripheral(n))
        } else {
            None
        }
    }
}

/// Registering `handler` for slot `irq` of `slots`: refused, with the table
/// unchanged, when the slot is taken.
pub open spec fn register_spec<H>(slots: Seq<Option<H>>, irq: int, handler: H) -> (Seq<Option<H>>, Result<(), &'static str>) {
    if slots[irq] is Some {
        (slots, Err("IRQ handler already registered"))
    } else {
        (slots.update(irq, Some(handler)), Ok(()))
    }
}

/// A table of IRQ handlers, one optional slot per IRQ number.
pub struct HandlerTable<H> {
    slots: Vec<Option<H>>,
}

impl<H> View for HandlerTable<H> {
    type V = Seq<Option<H>>;

    closed spec fn view(&self) -> Seq<Option<H>> {
        self.slots@
    }
}

impl<H: Copy> HandlerTable<H> {
    /// A table of `size` empty slots.
    pub fn new(size: usize) -> (r: HandlerTable<H>)
        ensures
            r@.len() == size,
            forall|i: int| 0 <= i < size ==> r@[i] is None,
    {
        let mut slots: Vec<Option<H>> = Vec::new();
        let mut i: usize = 0;
        while i < size
            invariant
                i <= size,
                slots@.len() == i,
                forall|j: int| 0 <= j < i ==> slots@[j] is None,
            decreases size - i,
        {
            slots.push(None);
            i = i + 1;
        }
        HandlerTable { slots }
    }

    /// Registers `handler` for `irq`; fails with "IRQ handler already
    /// registered", keeping the handler already there, if the slot is taken.
    pub fn register_handler(&mut self, irq: usize, handler: H) -> (r: Result<(), &'static str>)
        requires
            irq < old(self)@.len(),
        ensures
            (final(self)@, r) == register_spec(old(self)@, irq as int, handler),
    {
        if self.slots[irq].is_some() {
            return Err("IRQ handler already registered");
        }
        self.slots.set(irq, Some(handler));
        Ok(())
    }

    /// The handler registered for `irq`, if any.
    pub fn get(&self, irq: usize) -> (r: Option<H>)
        ensures
            irq < self@.len() ==> r == self@[irq as int],
            irq >= self@.len() ==> r is None,
    {
        if irq < self.slots.len() {
            self.slots[irq]
        } else {
            None
        }
    }

    /// What to do, lowest number first, for the IRQs pending in `mask`; see
    /// [`dispatch_action`].
    pub fn dispatch(&self, mask: u64, gpu_edge_benign: bool) -> (r: Vec<Dispatch<H>>)
        ensures
            r@ == set_bits(mask).map_values(|n: usize| dispatch_action(self@, n, gpu_edge_benign)),
    {
        let mut pending = PendingIRQs::new(mask);
        let ghost mut done: Seq<usize> = Seq::empty();
        let mut out: Vec<Dispatch<H>> = Vec::new();
        loop
            invariant
                done + set_bits(pending@) == set_bits(mask),
                out@ == done.map_values(|n: usize| dispatch_action(self@, n, gpu_edge_benign)),
            decreases set_bits(pending@).len(),
        {
            match pending.next() {
                Some(n) => {
                    let action = match self.get(n) {
                        Some(h) => Dispatch::Call(n, h),
                        None => if gpu_edge_benign && n == GPU_FORWARDED_IRQ {
                            Dispatch::Ignore(n)
                        } else {
                            Dispatch::Unhandled(n)
                        },
                    };
                    out.push(action);
                    proof {
                        let d0 = done;
                        done = done.push(n);
                        assert(done + set_bits(pending@) =~= d0 + (seq![n] + set_bits(pending@)));
                        assert(out@ =~= done.map_values(|n: usize| dispatch_action(self@, n, gpu_edge_benign)));
                    }
                },
                None => {
                    assert(done =~= set_bits(mask));
                    return out;
                },
            }
        }
    }
}

/// What to do for one pending IRQ.
pub enum Dispatch<H> {
    /// Call this handler, registered for the IRQ.
    Call(usize, H),
    /// No handler, but nothing is wrong: the GPU-forwarded local edge.
    Ignore(usize),
    /// No handler: fatal.
    Unhandled(usize),
}

/// The action for pending IRQ `n` with handler table `slots`. Only where
/// `gpu_edge_benign` holds (the local controller) is a missing handler for IRQ
/// 8 not fatal.
pub open spec fn dispatch_action<H>(slots: Seq<Option<H>>, n: usize, gpu_edge_benign: bool) -> Dispatch<H> {
    if n < slots.len() && slots[n as int] is Some {
        Dispatch::Call(n, slots[n as int]->Some_0)
    } else if gpu_edge_benign && n == GPU_FORWARDED_IRQ {
        Dispatch::Ignore(n)
    } else {
        Dispatch::Unhandled(n)
    }
}

/// Registering a handler succeeds once per IRQ: a second registration for the
/// same number fails with "IRQ handler already registered" and leaves the
/// first handler in place.
pub proof fn lemma_register_once<H>(slots: Seq<Option<H>>, irq: int, first: H, second: H)
    requires
        0 <= irq < slots.len(),
        slots[irq] is None,
    ensures
        ({
            let (s1, r1) = register_spec(slots, irq, first);
            let (s2, r2) = register_spec(s1, irq, second);
            &&& r1 is Ok
            &&& r2 == Err::<(), &'static str>("IRQ handler already registered")
            &&& s2 == s1
            &&& s2[irq] == Some(first)
        }),
{
}


/// A write to one of the peripheral controller's write-only registers.
#[derive(Clone, Copy, Debug, PartialEq, Eq, Structural)]
pub enum PeripheralWrite {
    Enable1(u32),
    Enable2(u32),
    Disable1(u32),
    Disable2(u32),
    FiqControl(u32),
}

/// The bit for peripheral IRQ `n` within its 32-bit enable/disable register.
pub open spec fn irq_bit(n: usize) -> u32 {
    1u32 << ((n % 32) as u32)
}

/// Enabling peripheral IRQ `n`: its bit goes to `ENABLE_1` for `n <= 31`,
/// else to `ENABLE_2`. Other bits written as zero leave their IRQs as they are.
pub fn enable_write(n: usize) -> (r: PeripheralWrite)
    requires
        n <= MAX_PERIPHERAL_IRQ_NUMBER,
    ensures
        n <= 31 ==> r == PeripheralWrite::Enable1(irq_bit(n)),
        n > 31 ==> r == PeripheralWrite::Enable2(irq_bit(n)),
{
    let bit: u32 = 1u32 << ((n % 32) as u32);
    if n <= 31 {
        PeripheralWrite::Enable1(bit)
    } else {
        PeripheralWrite::Enable2(bit)
    }
}

/// Disabling peripheral IRQ `n`, through `DISABLE_1` or `DISABLE_2`.
pub fn disable_write(n: usize) -> (r: PeripheralWrite)
    requires
        n <= MAX_PERIPHERAL_IRQ_NUMBER,
    ensures
        n <= 31 ==> r == PeripheralWrite::Disable1(irq_bit(n)),
        n > 31 ==> r == PeripheralWrite::Disable2(irq_bit(n)),
{
    let bit: u32 = 1u32 << ((n % 32) as u32);
    if n <= 31 {
        PeripheralWrite::Disable1(bit)
    } else {
        PeripheralWrite::Disable2(bit)
    }
}

/// Routing peripheral IRQ `n` to the FIQ: first its IRQ route is disabled,
/// then `FIQ_CONTROL` gets the enable bit 7 together with `n`.
pub fn enable_fiq_writes(n: usize) -> (r: (PeripheralWrite, PeripheralWrite))
    requires
        n <= MAX_PERIPHERAL_IRQ_NUMBER,
    ensures
        r.0 == (if n <= 31 {
            PeripheralWrite::Disable1(irq_bit(n))
        } else {
            PeripheralWrite::Disable2(irq_bit(n))
        }),
        r.1 == PeripheralWrite::FiqControl((128 + n) as u32),
{
    let d = disable_write(n);
    let v: u32 = (1u32 << 7u32) | (n as u32);
    assert(v == 128 + n) by (bit_vector)
        requires
            v == (1u32 << 7u32) | (n as u32),
            n < 64,
    ;
    (d, PeripheralWrite::FiqControl(v))
}

/// Bit 1 of a core's timer-interrupt control register: routes that core's
/// generic timer to its IRQ line.
pub const LOCAL_TIMER_IRQ_ENABLE: u32 = 2;

/// Both interrupt controllers' handler tables: the peripheral one, one local
/// table per core, and the single FIQ handler.
pub struct InterruptController<H> {
    periph: HandlerTable<H>,
    local: Vec<HandlerTable<H>>,
    fiq: Option<H>,
}

impl<H: Copy> InterruptController<H> {
    /// The peripheral handler table.
    pub closed spec fn periph_view(&self) -> Seq<Option<H>> {
        self.periph@
    }

    /// The local handler table of `core`.
    pub closed spec fn local_view(&self, core: int) -> Seq<Option<H>> {
        self.local@[core]@
    }

    /// The FIQ handler.
    pub closed spec fn fiq_view(&self) -> Option<H> {
        self.fiq
    }

    /// There is one local table per core.
    pub closed spec fn one_local_table_per_core(&self) -> bool {
        self.local@.len() == NUM_CORES
    }

    /// The peripheral table has 64 slots and each core's local table 12.
    pub open spec fn wf(&self) -> bool {
        &&& self.one_local_table_per_core()
        &&& self.periph_view().len() == NUM_PERIPHERAL_IRQS
        &&& forall|c: int| 0 <= c < NUM_CORES ==> (#[trigger] self.local_view(c)).len() == NUM_LOCAL_IRQS
    }

    /// Controllers with no handler registered.
    pub fn new() -> (r: InterruptController<H>)
        ensures
            r.wf(),
            forall|i: int| 0 <= i < NUM_PERIPHERAL_IRQS ==> r.periph_view()[i] is None,
            forall|c: int, i: int| 0 <= c < NUM_CORES && 0 <= i < NUM_LOCAL_IRQS ==> r.local_view(c)[i] is None,
            r.fiq_view() is None,
    {
        let mut local: Vec<HandlerTable<H>> = Vec::new();
        let mut c: usize = 0;
        while c < NUM_CORES
            invariant
                c <= NUM_CORES,
                local@.len() == c,
                forall|k: int| 0 <= k < c ==> (#[trigger] local@[k])@.len() == NUM_LOCAL_IRQS,
                forall|k: int, i: int| 0 <= k < c && 0 <= i < NUM_LOCAL_IRQS ==> #[trigger] local@[k]@[i] is None,
            decreases NUM_CORES - c,
        {
            local.push(HandlerTable::new(NUM_LOCAL_IRQS));
            c = c + 1;
        }
        InterruptController { periph: HandlerTable::new(NUM_PERIPHERAL_IRQS), local, fiq: None }
    }

    /// Registers `handler` for `irq`, in the local table of `core` for a local
    /// IRQ. Fails with "IRQ handler already registered", changing nothing, if
    /// the slot is taken.
    pub fn register_handler(&mut self, irq: IRQNumber, core: usize, handler: H) -> (r: Result<(), &'static str>)
        requires
            old(self).wf(),
            irq.wf(),
            core < NUM_CORES,
        ensures
            final(self).wf(),
            final(self).fiq_view() == old(self).fiq_view(),
            match irq {
                IRQNumber::Peripheral(n) => {
                    &&& (final(self).periph_view(), r) == register_spec(old(self).periph_view(), n as int, handler)
                    &&& forall|c: int| 0 <= c < NUM_CORES ==> final(self).local_view(c) == old(self).local_view(c)
                },
                IRQNumber::Local(n) => {
                    &&& (final(self).local_view(core as int), r) == register_spec(old(self).local_view(core as int), n as int, handler)
                    &&& final(self).periph_view() == old(self).periph_view()
                    &&& forall|c: int| 0 <= c < NUM_CORES && c != core ==> final(self).local_view(c) == old(self).local_view(c)
                },
            },
    {
        match irq {
            IRQNumber::Peripheral(n) => {
                let r = self.periph.register_handler(n, handler);
                assert forall|c: int| 0 <= c < NUM_CORES implies (#[trigger] self.local_view(c)).len()
                    == NUM_LOCAL_IRQS by {
                    assert(old(self).local_view(c).len() == NUM_LOCAL_IRQS);
                }
                r
            },
            IRQNumber::Local(n) => {
                let ghost l0 = self.local@;
                assert(self.local_view(core as int).len() == NUM_LOCAL_IRQS);
                let mut table = self.local.remove(core);
                assert(table@ == l0[core as int]@);
                let r = table.register_handler(n, handler);
                self.local.insert(core, table);
                proof {
                    assert forall|c: int| 0 <= c < NUM_CORES && c != core implies self.local@[c] == l0[c] by {
                        if c < core {
                        } else {
                        }
                    }
                    assert forall|c: int| 0 <= c < NUM_CORES implies (#[trigger] self.local_view(c)).len()
                        == NUM_LOCAL_IRQS by {
                        if c != core {
                            assert(old(self).local_view(c).len() == NUM_LOCAL_IRQS);
                        }
                    }
                }
                r
            },
        }
    }

    /// The handler registered for peripheral IRQ `n`, if any.
    pub fn peripheral_handler(&self, n: usize) -> (r: Option<H>)
        ensures
            n < self.periph_view().len() ==> r == self.periph_view()[n as int],
            n >= self.periph_view().len() ==> r is None,
    {
        self.periph.get(n)
    }

    /// The handler registered for local IRQ `n` of `core`, if any.
    pub fn local_handler(&self, core: usize, n: usize) -> (r: Option<H>)
        requires
            self.wf(),
            core < NUM_CORES,
        ensures
            n < NUM_LOCAL_IRQS ==> r == self.local_view(core as int)[n as int],
            n >= NUM_LOCAL_IRQS ==> r is None,
    {
        self.local[core].get(n)
    }

    /// Registers the FIQ handler, replacing any earlier one.
    pub fn register_fiq(&mut self, handler: H)
        ensures
            final(self).fiq_view() == Some(handler),
            final(self).periph_view() == old(self).periph_view(),
            forall|c: int| final(self).local_view(c) == old(self).local_view(c),
            old(self).wf() ==> final(self).wf(),
    {
        self.fiq = Some(handler);
        assert forall|c: int| 0 <= c < NUM_CORES implies (#[trigger] self.local_view(c)) == old(self).local_view(c) by {}
    }

    /// The FIQ handler, if one is registered.
    pub fn fiq_handler(&self) -> (r: Option<H>)
        ensures
            r == self.fiq_view(),
    {
        self.fiq
    }

    /// What to do, lowest number first, for the IRQs pending at `core`:
    /// `periph_mask` is the peripheral controller's pending mask (only the boot
    /// core serves it; pass 0 elsewhere) and `local_mask` that core's IRQ
    /// source. The peripheral IRQs come first.
    pub fn dispatch(&self, core: usize, periph_mask: u64, local_mask: u64) -> (r: (Vec<Dispatch<H>>, Vec<Dispatch<H>>))
        requires
            self.wf(),
            core < NUM_CORES,
        ensures
            r.0@ == set_bits(periph_mask).map_values(|n: usize| dispatch_action(self.periph_view(), n, false)),
            r.1@ == set_bits(local_mask).map_values(|n: usize| dispatch_action(self.local_view(core as int), n, true)),
    {
        (self.periph.dispatch(periph_mask, false), self.local[core].dispatch(local_mask, true))
    }
}

} // verus!
