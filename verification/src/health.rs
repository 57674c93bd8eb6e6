use vstd::prelude::*;

verus! {

/// Hit points of a fighter. `current` drops by each hit's damage and may go
/// below zero on overkill; `max` is the starting amount.
#[derive(Clone, Copy, Debug, PartialEq, Eq, Structural)]
pub struct Health {
    pub current: i32,
    pub max: i32,
}

} // verus!
