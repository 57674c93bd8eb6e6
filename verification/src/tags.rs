use vstd::prelude::*;

verus! {

/// Which player controls an entity (1, 2, ...).
#[derive(Clone, Copy, Debug, PartialEq, Eq, Structural)]
pub struct PlayerTag {
    pub id: u8,
}

/// Marks an entity as a controllable character.
#[derive(Clone, Copy, Debug, PartialEq, Eq, Structural)]
pub struct CharacterTag;

/// The side an entity fights on (0 = left, 1 = right, ...).
#[derive(Clone, Copy, Debug, PartialEq, Eq, Structural)]
pub struct TeamTag {
    pub team: u8,
}

} // verus!
