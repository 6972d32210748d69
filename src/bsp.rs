//! Board identification.

use vstd::prelude::*;

verus! {

/// The board this kernel runs on.
pub fn board_name() -> (r: &'static str)
    ensures
        r == "Raspberry Pi 3",
{
    "Raspberry Pi 3"
}

} // verus!
