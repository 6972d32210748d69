//! Exception frames and privilege levels.

use vstd::prelude::*;

verus! {

/// The register frame saved on exception entry and restored on `eret`.
#[derive(Clone, Copy)]
pub struct ExceptionContext {
    /// General-purpose registers `x0..=x30`.
    pub gpr: [u64; 31],
    /// Stack pointer of the interrupted context.
    pub sp: u64,
    /// Exception link register: where execution resumes.
    pub elr: u64,
    /// Saved program status register.
    pub spsr: u64,
    /// Thread id register; holds the id of the task that owns the frame.
    pub tpidr: u64,
}

impl ExceptionContext {
    /// Every register of the frame is zero.
    pub open spec fn is_zeroed(&self) -> bool {
        &&& forall|i: int| 0 <= i < 31 ==> self.gpr[i] == 0
        &&& self.sp == 0
        &&& self.elr == 0
        &&& self.spsr == 0
        &&& self.tpidr == 0
    }
}

impl Default for ExceptionContext {
    fn default() -> (r: ExceptionContext)
        ensures
            r.is_zeroed(),
    {
        ExceptionContext { gpr: [0u64; 31], sp: 0, elr: 0, spsr: 0, tpidr: 0 }
    }
}

/// Kernel privilege levels.
#[derive(PartialEq, Eq, Structural, Clone, Copy, Debug)]
pub enum PrivilegeLevel {
    User,
    Kernel,
    Hypervisor,
    Unknown,
}

/// The exception level encoded in a `CurrentEL` register value (bits 3:2).
pub open spec fn current_el_field(current_el: u64) -> u64 {
    (current_el >> 2u64) & 3u64
}

impl PrivilegeLevel {
    /// Decodes the privilege level from a raw `CurrentEL` register value.
    pub fn from_current_el(current_el: u64) -> (r: PrivilegeLevel)
        ensures
            current_el_field(current_el) == 0 <==> r == PrivilegeLevel::User,
            current_el_field(current_el) == 1 <==> r == PrivilegeLevel::Kernel,
            current_el_field(current_el) == 2 <==> r == PrivilegeLevel::Hypervisor,
            current_el_field(current_el) == 3 <==> r == PrivilegeLevel::Unknown,
    {
        let el = (current_el >> 2u64) & 3u64;
        assert(el <= 3) by (bit_vector)
            requires
                el == (current_el >> 2u64) & 3u64,
        ;
        if el == 0 {
            PrivilegeLevel::User
        } else if el == 1 {
            PrivilegeLevel::Kernel
        } else if el == 2 {
            PrivilegeLevel::Hypervisor
        } else {
            PrivilegeLevel::Unknown
        }
    }
}

} // verus!
