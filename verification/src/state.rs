use vstd::prelude::*;

verus! {

/// What a fighter is doing this frame.
#[derive(Clone, Copy, Debug, PartialEq, Eq, Structural)]
pub enum CharacterState {
    Idle,
    Walking,
    Crouching,
    Jumping,
    Falling,
    Attacking,
    Hitstun,
    KO,
}

/// A fighter's current state and how many frames it has been in it.
#[derive(Clone, Copy, Debug, PartialEq, Eq, Structural)]
pub struct StateMachine {
    pub state: CharacterState,
    pub frames_in_state: u16,
}

/// A fighter leaves hitstun once it has spent more than this many frames in it.
pub const HITSTUN_RECOVERY_FRAMES: u16 = 30;

/// `n + 1`, held at `u16::MAX`.
pub open spec fn saturating_inc_u16(n: u16) -> u16 {
    if n == u16::MAX { n } else { (n + 1) as u16 }
}

/// The state machine after one simulation frame.
pub open spec fn tick_spec(sm: StateMachine) -> StateMachine {
    let frames = saturating_inc_u16(sm.frames_in_state);
    if sm.state == CharacterState::Hitstun && frames > HITSTUN_RECOVERY_FRAMES {
        StateMachine { state: CharacterState::Idle, frames_in_state: 0 }
    } else {
        StateMachine { state: sm.state, frames_in_state: frames }
    }
}

/// Advances one fighter's state machine by one frame: the frame counter grows
/// (saturating), and hitstun recovers to idle once it has lasted long enough.
pub fn update_character_state(sm: &mut StateMachine)
    ensures
        *final(sm) == tick_spec(*old(sm)),
{
    sm.frames_in_state = sm.frames_in_state.saturating_add(1);
    if sm.state == CharacterState::Hitstun && sm.frames_in_state > HITSTUN_RECOVERY_FRAMES {
        sm.state = CharacterState::Idle;
        sm.frames_in_state = 0;
    }
}

/// The state machine after `n` simulation frames.
pub open spec fn tick_n(sm: StateMachine, n: nat) -> StateMachine
    decreases n,
{
    if n == 0 { sm } else { tick_n(tick_spec(sm), (n - 1) as nat) }
}

proof fn lemma_hitstun_holds(frames: u16, k: nat)
    requires
        frames + k <= HITSTUN_RECOVERY_FRAMES,
    ensures
        tick_n(StateMachine { state: CharacterState::Hitstun, frames_in_state: frames }, k)
            == (StateMachine { state: CharacterState::Hitstun, frames_in_state: (frames + k) as u16 }),
    decreases k,
{
    if k > 0 {
        lemma_hitstun_holds((frames + 1) as u16, (k - 1) as nat);
    }
}

/// A fighter freshly put into hitstun stays in hitstun, counting frames
/// 1, 2, ..., 30, for its first 30 updates, and is back to idle at frame 0
/// after exactly 31 updates.
pub proof fn lemma_hitstun_recovery(k: nat)
    ensures
        k <= HITSTUN_RECOVERY_FRAMES ==> tick_n(
            StateMachine { state: CharacterState::Hitstun, frames_in_state: 0 },
            k,
        ) == (StateMachine { state: CharacterState::Hitstun, frames_in_state: k as u16 }),
        tick_n(
            StateMachine { state: CharacterState::Hitstun, frames_in_state: 0 },
            (HITSTUN_RECOVERY_FRAMES + 1) as nat,
        ) == (StateMachine { state: CharacterState::Idle, frames_in_state: 0 }),
{
    let start = StateMachine { state: CharacterState::Hitstun, frames_in_state: 0 };
    if k <= HITSTUN_RECOVERY_FRAMES {
        lemma_hitstun_holds(0, k);
    }
    lemma_hitstun_holds(1, (HITSTUN_RECOVERY_FRAMES - 1) as nat);
    assert(tick_spec(start) == StateMachine { state: CharacterState::Hitstun, frames_in_state: 1 });
    let last = StateMachine { state: CharacterState::Hitstun, frames_in_state: HITSTUN_RECOVERY_FRAMES };
    assert(tick_n(last, 1) == tick_n(tick_spec(last), 0));
    lemma_tick_n_split(start, 1, (HITSTUN_RECOVERY_FRAMES - 1) as nat);
    lemma_tick_n_split(start, HITSTUN_RECOVERY_FRAMES as nat, 1);
}

/// Running `a` frames and then `b` more is running `a + b` frames.
pub proof fn lemma_tick_n_split(sm: StateMachine, a: nat, b: nat)
    ensures
        tick_n(tick_n(sm, a), b) == tick_n(sm, a + b),
    decreases a,
{
    if a > 0 {
        lemma_tick_n_split(tick_spec(sm), (a - 1) as nat, b);
    }
}

/// Only hitstun ever changes on its own: a fighter in any other state keeps
/// that state for any number of updates.
pub proof fn lemma_other_states_persist(sm: StateMachine, n: nat)
    requires
        sm.state != CharacterState::Hitstun,
    ensures
        tick_n(sm, n).state == sm.state,
    decreases n,
{
    if n > 0 {
        lemma_other_states_persist(tick_spec(sm), (n - 1) as nat);
    }
}

/// The frame counter never wraps around: an update either counts up (holding
/// at the maximum) or resets it to zero on recovery from hitstun.
pub proof fn lemma_frame_counter_monotone(sm: StateMachine)
    ensures
        tick_spec(sm).frames_in_state >= sm.frames_in_state
            || (sm.state == CharacterState::Hitstun && tick_spec(sm) == (StateMachine {
            state: CharacterState::Idle,
            frames_in_state: 0,
        })),
{
}

} // verus!
