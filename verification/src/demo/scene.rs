use vstd::prelude::*;
use crate::demo::controls::{action_name, ActionState};

verus! {

/// One entry of a fighter's animation state map: the state's name and the
/// name of the clip it plays.
#[derive(Debug)]
pub struct StateClip {
    pub state: String,
    pub clip: String,
}

/// Why a fighter's animation set cannot be built.
#[derive(Debug)]
pub enum AnimationSetError {
    /// The state map sends `state` to a clip the fighter does not define.
    MissingClip { state: String, clip: String },
    /// The state map has no entry for a state every fighter needs.
    MissingState { state: ActionState },
}

/// The states every fighter's state map must name, in the order checked.
pub open spec fn required_state(k: int) -> ActionState {
    if k == 0 {
        ActionState::Idle
    } else if k == 1 {
        ActionState::Walk
    } else if k == 2 {
        ActionState::Attack
    } else {
        ActionState::Throw
    }
}

/// The number of required states.
pub const REQUIRED_STATES: usize = 4;

/// Some clip is called `name`.
pub open spec fn has_clip(clips: Seq<String>, name: Seq<char>) -> bool {
    exists|k: int| 0 <= k < clips.len() && #[trigger] clips[k]@ == name
}

/// Some entry of the state map is for the state called `name`.
pub open spec fn has_state(map: Seq<StateClip>, name: Seq<char>) -> bool {
    exists|k: int| 0 <= k < map.len() && #[trigger] map[k].state@ == name
}

/// Entry `i` of the state map is the first that names a missing clip.
pub open spec fn first_bad_entry(clips: Seq<String>, map: Seq<StateClip>, i: int) -> bool {
    &&& 0 <= i < map.len()
    &&& !has_clip(clips, map[i].clip@)
    &&& forall|j: int| 0 <= j < i ==> has_clip(clips, #[trigger] map[j].clip@)
}

/// Every entry of the state map names a clip the fighter defines.
pub open spec fn all_clips_present(clips: Seq<String>, map: Seq<StateClip>) -> bool {
    forall|j: int| 0 <= j < map.len() ==> has_clip(clips, #[trigger] map[j].clip@)
}

/// Required state `k` is the first one the state map lacks.
pub open spec fn first_missing_state(map: Seq<StateClip>, k: int) -> bool {
    &&& 0 <= k < REQUIRED_STATES
    &&& !has_state(map, action_name(required_state(k)))
    &&& forall|j: int| 0 <= j < k ==> has_state(map, action_name(#[trigger] required_state(j)))
}

/// The state map names every required state.
pub open spec fn all_states_present(map: Seq<StateClip>) -> bool {
    forall|j: int| 0 <= j < REQUIRED_STATES ==> has_state(map, action_name(#[trigger] required_state(j)))
}

/// Whether a clip of the given name is defined.
fn clip_defined(clips: &Vec<String>, name: &String) -> (res: bool)
    ensures
        res == has_clip(clips@, name@),
{
    let mut k: usize = 0;
    while k < clips.len()
        invariant
            k <= clips.len(),
            forall|j: int| 0 <= j < k ==> clips@[j]@ != name@,
        decreases clips.len() - k,
    {
        if clips[k] == *name {
            return true;
        }
        k = k + 1;
    }
    false
}

/// Whether the state map has an entry for the state of the given name.
fn state_defined(map: &Vec<StateClip>, name: &str) -> (res: bool)
    ensures
        res == has_state(map@, name@),
{
    let target = name.to_owned();
    let mut k: usize = 0;
    while k < map.len()
        invariant
            k <= map.len(),
            target@ == name@,
            forall|j: int| 0 <= j < k ==> map@[j].state@ != name@,
        decreases map.len() - k,
    {
        if map[k].state == target {
            return true;
        }
        k = k + 1;
    }
    false
}

/// Checks a fighter's animation set: first that each state map entry, in
/// order, names a defined clip, then that the idle, walk, attack and throw
/// states are mapped. Reports the first failure.
pub fn check_animation_set(clips: &Vec<String>, state_map: &Vec<StateClip>) -> (res: Result<(), AnimationSetError>)
    ensures
        res is Ok <==> all_clips_present(clips@, state_map@) && all_states_present(state_map@),
        res matches Err(AnimationSetError::MissingClip { state, clip }) ==> exists|i: int|
            first_bad_entry(clips@, state_map@, i) && #[trigger] state_map@[i].state@ == state@
                && state_map@[i].clip@ == clip@,
        res matches Err(AnimationSetError::MissingState { state }) ==> all_clips_present(clips@, state_map@)
            && exists|k: int| first_missing_state(state_map@, k) && #[trigger] required_state(k) == state,
{
    let mut i: usize = 0;
    while i < state_map.len()
        invariant
            i <= state_map.len(),
            forall|j: int| 0 <= j < i ==> has_clip(clips@, #[trigger] state_map@[j].clip@),
        decreases state_map.len() - i,
    {
        if !clip_defined(clips, &state_map[i].clip) {
            assert(first_bad_entry(clips@, state_map@, i as int));
            let state = state_map[i].state.clone();
            let clip = state_map[i].clip.clone();
            assert(state_map@[i as int].state@ == state@);
            return Err(AnimationSetError::MissingClip { state, clip });
        }
        i = i + 1;
    }
    let mut k: usize = 0;
    while k < REQUIRED_STATES
        invariant
            k <= REQUIRED_STATES,
            all_clips_present(clips@, state_map@),
            forall|j: int| 0 <= j < k ==> has_state(state_map@, action_name(#[trigger] required_state(j))),
        decreases REQUIRED_STATES - k,
    {
        let state = if k == 0 {
            ActionState::Idle
        } else if k == 1 {
            ActionState::Walk
        } else if k == 2 {
            ActionState::Attack
        } else {
            ActionState::Throw
        };
        assert(state == required_state(k as int));
        if !state_defined(state_map, state.name()) {
            assert(first_missing_state(state_map@, k as int));
            return Err(AnimationSetError::MissingState { state });
        }
        k = k + 1;
    }
    Ok(())
}

} // verus!
