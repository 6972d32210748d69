//! The periodic system timer that drives preemption.
//!
//! The free-running counter is read as `CHI:CLO` microseconds; compare channel
//! 1 fires each `interval` microseconds. The compare register and the low
//! counter word are 32 bits wide and wrap together, so the next match value is
//! computed modulo 2^32.

use vstd::prelude::*;

verus! {

/// The default tick interval: 200 000 µs.
pub const DEFAULT_INTERVAL: u32 = 200_000;

/// The counter value `high:low`, in microseconds.
pub fn counter_time_us(high: u32, low: u32) -> (r: u64)
    ensures
        r == high as int * 0x1_0000_0000 + low as int,
{
    let r = ((high as u64) << 32u64) | (low as u64);
    assert(r == high as u64 * 0x1_0000_0000u64 + low as u64) by (bit_vector)
        requires
            r == ((high as u64) << 32u64) | (low as u64),
    ;
    r
}

/// State of the system timer driver: where its registers are, its interval
/// and the compare value currently armed.
pub struct SystemTimerInner {
    base_addr: usize,
    interval: u32,
    cur_val: u32,
}

impl SystemTimerInner {
    pub closed spec fn base(&self) -> usize {
        self.base_addr
    }

    pub closed spec fn interval(&self) -> u32 {
        self.interval
    }

    /// The compare value armed last.
    pub closed spec fn armed(&self) -> u32 {
        self.cur_val
    }

    /// A timer at `base_addr` with the default interval, not yet armed.
    pub fn new(base_addr: usize) -> (r: SystemTimerInner)
        ensures
            r.base() == base_addr,
            r.interval() == DEFAULT_INTERVAL,
            r.armed() == 0,
    {
        SystemTimerInner { base_addr, interval: DEFAULT_INTERVAL, cur_val: 0 }
    }

    /// Where the timer's registers are.
    pub fn base_addr(&self) -> (r: usize)
        ensures
            r == self.base(),
    {
        self.base_addr
    }

    /// Arms the first match, one interval after the counter value `clo`.
    /// Returns the value to write to compare register 1.
    pub fn init(&mut self, clo: u32) -> (r: u32)
        ensures
            r == (clo as int + old(self).interval() as int) % 0x1_0000_0000,
            final(self).armed() == r,
            final(self).interval() == old(self).interval(),
            final(self).base() == old(self).base(),
    {
        self.cur_val = clo.wrapping_add(self.interval);
        self.cur_val
    }

    /// On a match: the next match comes one interval after the last one.
    /// Returns the value to write to compare register 1; the caller then
    /// clears the match bit `M1` and reports the tick to the scheduler.
    pub fn handle(&mut self) -> (r: u32)
        ensures
            r == (old(self).armed() as int + old(self).interval() as int) % 0x1_0000_0000,
            final(self).armed() == r,
            final(self).interval() == old(self).interval(),
            final(self).base() == old(self).base(),
    {
        self.cur_val = self.cur_val.wrapping_add(self.interval);
        self.cur_val
    }
}

} // verus!
