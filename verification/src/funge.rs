//! The status a generalised funge machine reports after one tick.

use vstd::prelude::*;

verus! {

/// What one tick of a funge machine did.
#[derive(PartialEq, Eq, Structural, Hash, Clone, Copy, Debug)]
pub enum Status {
    /// The tick executed an instruction.
    Completed,
    /// The tick suspended for want of input.
    Waiting,
    /// The program ended.
    Terminated,
}

} // verus!
