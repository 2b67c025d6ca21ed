use vstd::prelude::*;

verus! {

/// A tick range, from its lower to its upper tick.
#[derive(Debug, Clone, Copy, PartialEq, Eq, Structural)]
pub struct Range {
    pub lower_tick: i64,
    pub upper_tick: i64,
}

} // verus!
