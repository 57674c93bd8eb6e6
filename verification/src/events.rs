use vstd::prelude::*;
use crate::round::RoundPhase;

verus! {

/// An attack box touched a hurt box. Entities are named by their 64-bit ids.
#[derive(Clone, Copy, Debug, PartialEq, Eq, Structural)]
pub struct HitEvent {
    pub attacker: u64,
    pub victim: u64,
    pub damage: i32,
    pub hitstun_frames: u16,
}

/// A hit brought the loser's health to zero or below.
#[derive(Clone, Copy, Debug, PartialEq, Eq, Structural)]
pub struct KoEvent {
    pub winner: u64,
    pub loser: u64,
}

/// The round entered a new phase.
#[derive(Clone, Copy, Debug, PartialEq, Eq, Structural)]
pub struct RoundStateEvent {
    pub new_state: RoundPhase,
}

} // verus!
