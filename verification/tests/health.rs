use vscr_core::events::HitEvent;
use vscr_core::health::Health;
use vscr_core::hit_resolution::{apply_hit, find_combatant, hits_fit, resolve_hits, Combatant, HITSTOP_CAP};
use vscr_core::state::{update_character_state, CharacterState, StateMachine};
use vscr_core::time_freeze::TimeFreeze;

#[test]
fn damage_reduces_current_health() {
    let mut h = Health { current: 100, max: 100 };
    h.current -= 30;
    assert_eq!(h.current, 70);
}

#[test]
fn fatal_damage_drops_health_to_zero() {
    let mut h = Health { current: 10, max: 100 };
    h.current -= 10;
    assert!(h.current <= 0);
}

#[test]
fn overkill_damage_goes_negative() {
    let mut h = Health { current: 5, max: 100 };
    h.current -= 20;
    assert!(h.current < 0);
}

fn fighter(entity: u64, current: i32) -> Combatant {
    Combatant {
        entity,
        health: Health { current, max: 100 },
        state_machine: Some(StateMachine { state: CharacterState::Walking, frames_in_state: 7 }),
        time_freeze: None,
    }
}

fn hit(attacker: u64, victim: u64, damage: i32, hitstun_frames: u16) -> HitEvent {
    HitEvent { attacker, victim, damage, hitstun_frames }
}

#[test]
fn hit_damages_stuns_and_freezes_victim() {
    let mut chars = vec![fighter(1, 100), fighter(2, 100)];
    let ko = apply_hit(&mut chars, &hit(1, 2, 30, 20));
    assert_eq!(ko, None);
    assert_eq!(chars[1].health.current, 70);
    assert_eq!(chars[1].health.max, 100);
    assert_eq!(
        chars[1].state_machine,
        Some(StateMachine { state: CharacterState::Hitstun, frames_in_state: 0 })
    );
    assert_eq!(chars[1].time_freeze, Some(TimeFreeze { frames_remaining: HITSTOP_CAP as i16 }));
    assert_eq!(chars[0], fighter(1, 100));
}

#[test]
fn short_hitstun_gives_short_hitstop() {
    let mut chars = vec![fighter(5, 50)];
    apply_hit(&mut chars, &hit(9, 5, 1, 4));
    assert_eq!(chars[0].time_freeze, Some(TimeFreeze { frames_remaining: 4 }));
}

#[test]
fn knockout_reports_winner_and_loser_and_skips_hitstun() {
    let mut chars = vec![fighter(1, 100), fighter(2, 10)];
    let ko = apply_hit(&mut chars, &hit(1, 2, 10, 20));
    assert_eq!(ko.map(|k| (k.winner, k.loser)), Some((1, 2)));
    assert_eq!(chars[1].health.current, 0);
    assert_eq!(
        chars[1].state_machine,
        Some(StateMachine { state: CharacterState::Walking, frames_in_state: 7 })
    );
    assert_eq!(chars[1].time_freeze, Some(TimeFreeze { frames_remaining: 15 }));
}

#[test]
fn hit_on_non_character_changes_nothing() {
    let mut chars = vec![fighter(1, 100)];
    let ko = apply_hit(&mut chars, &hit(1, 42, 1000, 20));
    assert_eq!(ko, None);
    assert_eq!(chars, vec![fighter(1, 100)]);
}

#[test]
fn victim_without_state_machine_only_takes_damage() {
    let mut chars = vec![Combatant {
        entity: 3,
        health: Health { current: 40, max: 40 },
        state_machine: None,
        time_freeze: None,
    }];
    apply_hit(&mut chars, &hit(1, 3, 10, 20));
    assert_eq!(chars[0].health.current, 30);
    assert_eq!(chars[0].state_machine, None);
}

#[test]
fn resolve_hits_totals_damage_and_reports_each_ko() {
    let mut chars = vec![fighter(1, 25), fighter(2, 100)];
    let hits = vec![hit(2, 1, 10, 20), hit(1, 2, 10, 20), hit(2, 1, 10, 20), hit(2, 1, 10, 20), hit(2, 1, 10, 20)];
    assert!(hits_fit(&chars, &hits));
    let kos = resolve_hits(&mut chars, &hits);
    assert_eq!(chars[0].health.current, -15);
    assert_eq!(chars[1].health.current, 90);
    let pairs: Vec<(u64, u64)> = kos.iter().map(|k| (k.winner, k.loser)).collect();
    assert_eq!(pairs, vec![(2, 1), (2, 1)]);
}

#[test]
fn hits_fit_detects_overflowing_damage() {
    let chars = vec![fighter(1, i32::MIN + 5)];
    assert!(hits_fit(&chars, &vec![hit(2, 1, 5, 1)]));
    assert!(!hits_fit(&chars, &vec![hit(2, 1, 5, 1), hit(2, 1, 1, 1)]));
    assert!(hits_fit(&chars, &vec![hit(2, 7, i32::MAX, 1)]));
    let healed = vec![fighter(1, i32::MAX - 1)];
    assert!(!hits_fit(&healed, &vec![hit(2, 1, -2, 1)]));
}

#[test]
fn struck_fighter_recovers_after_31_updates() {
    let mut chars = vec![fighter(1, 100)];
    apply_hit(&mut chars, &hit(2, 1, 10, 20));
    let mut sm = chars[0].state_machine.unwrap();
    for _ in 0..30 {
        update_character_state(&mut sm);
        assert_eq!(sm.state, CharacterState::Hitstun);
    }
    update_character_state(&mut sm);
    assert_eq!(sm, StateMachine { state: CharacterState::Idle, frames_in_state: 0 });
}

#[test]
fn first_combatant_with_an_id_is_found() {
    let chars = vec![fighter(4, 1), fighter(8, 2), fighter(8, 3)];
    assert_eq!(find_combatant(&chars, 8), Some(1));
    assert_eq!(find_combatant(&chars, 5), None);
    let mut dup = chars.clone();
    apply_hit(&mut dup, &hit(4, 8, 1, 1));
    assert_eq!(dup[1].health.current, 1);
    assert_eq!(dup[2].health.current, 3);
}
