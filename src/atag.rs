//! ATAG records handed over by the firmware.

use vstd::prelude::*;

verus! {

/// The `CORE` ATAG.
#[derive(Clone, Copy, Debug, PartialEq, Eq, Structural)]
pub struct Core {
    pub flags: u32,
    pub page_size: u32,
    pub root_dev: u32,
}

/// The `MEM` ATAG: a region of physical memory.
#[derive(Clone, Copy, Debug, PartialEq, Eq, Structural)]
pub struct Mem {
    pub size: u32,
    pub start: u32,
}

/// An ATAG.
#[derive(Clone, Copy, Debug)]
pub enum Atag {
    Core(Core),
    Mem(Mem),
    Cmd(&'static str),
    Unknown(u32),
    /// The `NONE` ATAG that ends the list.
    End,
}

impl Atag {
    /// Returns `Some` if this is a `Core` ATAG. Otherwise returns `None`.
    pub fn as_core(self) -> (r: Option<Core>)
        ensures
            self matches Atag::Core(c) ==> r == Some(c),
            !(self is Core) ==> r is None,
    {
        match self {
            Atag::Core(c) => Some(c),
            _ => None,
        }
    }

    /// Returns `Some` if this is a `Mem` ATAG. Otherwise returns `None`.
    pub fn mem(self) -> (r: Option<Mem>)
        ensures
            self matches Atag::Mem(m) ==> r == Some(m),
            !(self is Mem) ==> r is None,
    {
        match self {
            Atag::Mem(mem) => Some(mem),
            _ => None,
        }
    }

    /// Returns `Some` with the command line string if this is a `Cmd` ATAG.
    /// Otherwise returns `None`.
    pub fn cmd(self) -> (r: Option<&'static str>)
        ensures
            self matches Atag::Cmd(s) ==> r == Some(s),
            !(self is Cmd) ==> r is None,
    {
        match self {
            Atag::Cmd(s) => Some(s),
            _ => None,
        }
    }
}

} // verus!
