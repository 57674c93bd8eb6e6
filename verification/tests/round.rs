use vscr_core::events::RoundStateEvent;
use vscr_core::round::{advance_round_state, RoundPhase, RoundState};

#[test]
fn round_starts_in_intro() {
    let r = RoundState::default();
    assert_eq!(r, RoundState { phase: RoundPhase::Intro, frames_in_phase: 0 });
}

#[test]
fn intro_and_ready_last_61_frames_each() {
    let mut r = RoundState::default();
    for k in 1..=60u32 {
        assert_eq!(advance_round_state(&mut r, false), None);
        assert_eq!(r, RoundState { phase: RoundPhase::Intro, frames_in_phase: k });
    }
    assert_eq!(advance_round_state(&mut r, false), Some(RoundStateEvent { new_state: RoundPhase::Ready }));
    assert_eq!(r, RoundState { phase: RoundPhase::Ready, frames_in_phase: 0 });
    for _ in 0..60 {
        assert_eq!(advance_round_state(&mut r, true), None);
    }
    assert_eq!(advance_round_state(&mut r, false), Some(RoundStateEvent { new_state: RoundPhase::Fight }));
    assert_eq!(r, RoundState { phase: RoundPhase::Fight, frames_in_phase: 0 });
}

#[test]
fn fight_waits_for_a_ko() {
    let mut r = RoundState { phase: RoundPhase::Fight, frames_in_phase: 0 };
    for _ in 0..1000 {
        assert_eq!(advance_round_state(&mut r, false), None);
    }
    assert_eq!(r, RoundState { phase: RoundPhase::Fight, frames_in_phase: 1000 });
    assert_eq!(advance_round_state(&mut r, true), Some(RoundStateEvent { new_state: RoundPhase::KoFreeze }));
    assert_eq!(r, RoundState { phase: RoundPhase::KoFreeze, frames_in_phase: 0 });
}

#[test]
fn ko_freeze_lasts_91_frames_then_result_is_final() {
    let mut r = RoundState { phase: RoundPhase::KoFreeze, frames_in_phase: 0 };
    for _ in 0..90 {
        assert_eq!(advance_round_state(&mut r, true), None);
    }
    assert_eq!(r.frames_in_phase, 90);
    assert_eq!(advance_round_state(&mut r, false), Some(RoundStateEvent { new_state: RoundPhase::Result }));
    for _ in 0..500 {
        assert_eq!(advance_round_state(&mut r, true), None);
    }
    assert_eq!(r, RoundState { phase: RoundPhase::Result, frames_in_phase: 500 });
}

#[test]
fn events_from_default_round_without_ko() {
    let mut r = RoundState::default();
    let mut events: Vec<RoundStateEvent> = Vec::new();
    for n in 1..=300u32 {
        if let Some(e) = advance_round_state(&mut r, false) {
            events.push(e);
        }
        if n <= 60 {
            assert_eq!(r.phase, RoundPhase::Intro);
            assert!(events.is_empty());
        } else if n < 122 {
            assert_eq!(r, RoundState { phase: RoundPhase::Ready, frames_in_phase: n - 61 });
            assert_eq!(events, vec![RoundStateEvent { new_state: RoundPhase::Ready }]);
        } else {
            assert_eq!(r, RoundState { phase: RoundPhase::Fight, frames_in_phase: n - 122 });
            assert_eq!(
                events,
                vec![RoundStateEvent { new_state: RoundPhase::Ready }, RoundStateEvent { new_state: RoundPhase::Fight }]
            );
        }
    }
}
