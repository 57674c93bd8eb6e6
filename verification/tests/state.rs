use vscr_core::state::{update_character_state, CharacterState, StateMachine, HITSTUN_RECOVERY_FRAMES};

#[test]
fn new_state_machine_starts_idle() {
    let sm = StateMachine { state: CharacterState::Idle, frames_in_state: 0 };
    assert_eq!(sm.state, CharacterState::Idle);
    assert_eq!(sm.frames_in_state, 0);
}

#[test]
fn hitstun_recovers_to_idle_after_threshold() {
    let mut sm = StateMachine { state: CharacterState::Hitstun, frames_in_state: 31 };
    // Mirror the logic in state_machine_system
    if sm.state == CharacterState::Hitstun && sm.frames_in_state > 30 {
        sm.state = CharacterState::Idle;
        sm.frames_in_state = 0;
    }
    assert_eq!(sm.state, CharacterState::Idle);
    assert_eq!(sm.frames_in_state, 0);
}

#[test]
fn hitstun_does_not_recover_before_threshold() {
    let mut sm = StateMachine { state: CharacterState::Hitstun, frames_in_state: 15 };
    if sm.state == CharacterState::Hitstun && sm.frames_in_state > 30 {
        sm.state = CharacterState::Idle;
    }
    assert_eq!(sm.state, CharacterState::Hitstun, "should still be in hitstun");
}

#[test]
fn frames_in_state_saturating_add_prevents_overflow() {
    let mut sm = StateMachine { state: CharacterState::Idle, frames_in_state: u16::MAX };
    sm.frames_in_state = sm.frames_in_state.saturating_add(1);
    assert_eq!(sm.frames_in_state, u16::MAX);
}

#[test]
fn update_counts_frames_in_state() {
    let mut sm = StateMachine { state: CharacterState::Walking, frames_in_state: 4 };
    update_character_state(&mut sm);
    assert_eq!(sm, StateMachine { state: CharacterState::Walking, frames_in_state: 5 });
}

#[test]
fn update_holds_frame_counter_at_max() {
    let mut sm = StateMachine { state: CharacterState::KO, frames_in_state: u16::MAX };
    update_character_state(&mut sm);
    assert_eq!(sm, StateMachine { state: CharacterState::KO, frames_in_state: u16::MAX });
}

#[test]
fn update_recovers_from_hitstun_on_frame_31() {
    let mut sm = StateMachine { state: CharacterState::Hitstun, frames_in_state: 29 };
    update_character_state(&mut sm);
    assert_eq!(sm, StateMachine { state: CharacterState::Hitstun, frames_in_state: 30 });
    update_character_state(&mut sm);
    assert_eq!(sm, StateMachine { state: CharacterState::Idle, frames_in_state: 0 });
}

#[test]
fn hitstun_lasts_exactly_31_updates() {
    let mut sm = StateMachine { state: CharacterState::Hitstun, frames_in_state: 0 };
    for k in 1..=HITSTUN_RECOVERY_FRAMES {
        update_character_state(&mut sm);
        assert_eq!(sm, StateMachine { state: CharacterState::Hitstun, frames_in_state: k });
    }
    update_character_state(&mut sm);
    assert_eq!(sm, StateMachine { state: CharacterState::Idle, frames_in_state: 0 });
}

#[test]
fn other_states_persist_over_many_updates() {
    let mut sm = StateMachine { state: CharacterState::Jumping, frames_in_state: 0 };
    for _ in 0..100 {
        update_character_state(&mut sm);
    }
    assert_eq!(sm, StateMachine { state: CharacterState::Jumping, frames_in_state: 100 });
}
