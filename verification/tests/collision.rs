use vscr_core::collision::{detect_hits, HitBody, HIT_DAMAGE, HIT_HITSTUN_FRAMES};
use vscr_core::events::HitEvent;

fn body(entity: u64, team: Option<u8>, is_hitbox: bool) -> HitBody {
    HitBody { entity, team, is_hitbox }
}

fn all_overlap(n: usize) -> Vec<Vec<bool>> {
    vec![vec![true; n]; n]
}

fn ev(attacker: u64, victim: u64) -> HitEvent {
    HitEvent { attacker, victim, damage: HIT_DAMAGE, hitstun_frames: HIT_HITSTUN_FRAMES }
}

#[test]
fn attack_box_hits_overlapping_hurt_box() {
    let bodies = vec![body(10, Some(0), true), body(20, Some(1), false)];
    assert_eq!(detect_hits(&bodies, &all_overlap(2)), vec![ev(10, 20)]);
    let swapped = vec![body(20, Some(1), false), body(10, Some(0), true)];
    assert_eq!(detect_hits(&swapped, &all_overlap(2)), vec![ev(10, 20)]);
    assert_eq!(HIT_DAMAGE, 10);
    assert_eq!(HIT_HITSTUN_FRAMES, 20);
}

#[test]
fn same_team_and_same_kind_do_not_hit() {
    let bodies = vec![body(1, Some(0), true), body(2, Some(0), false), body(3, None, true), body(4, Some(1), true)];
    assert_eq!(detect_hits(&bodies, &all_overlap(4)), vec![ev(3, 2), ev(4, 2)]);
}

#[test]
fn only_overlapping_pairs_hit_in_pair_order() {
    let bodies = vec![body(1, Some(0), true), body(2, Some(1), false), body(3, None, false), body(4, Some(1), true)];
    let mut overlaps = vec![vec![false; 4]; 4];
    overlaps[0][1] = true;
    overlaps[0][2] = true;
    overlaps[1][3] = true;
    overlaps[2][3] = true;
    overlaps[3][0] = true;
    assert_eq!(detect_hits(&bodies, &overlaps), vec![ev(1, 2), ev(1, 3), ev(4, 3)]);
}

#[test]
fn no_bodies_no_hits() {
    assert_eq!(detect_hits(&vec![], &vec![]), vec![]);
}
