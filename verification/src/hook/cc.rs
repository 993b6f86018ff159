//! Calling conventions.

use vstd::prelude::*;

verus! {

/// The C calling convention.
#[derive(Debug, Clone, Copy, PartialEq, Eq, Structural)]
pub struct C;

impl Default for C {
    fn default() -> (r: Self)
        ensures
            r == C,
    {
        C
    }
}

} // verus!
