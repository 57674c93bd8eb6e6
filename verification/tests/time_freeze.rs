use vscr_core::time_freeze::{blocks_movement, update_time_freeze, FrozenEntity, TimeFreeze};

fn frozen(entity: u64, frames: i16) -> FrozenEntity {
    FrozenEntity { entity, freeze: TimeFreeze { frames_remaining: frames } }
}

#[test]
fn countdown_thaws_expired_and_keeps_the_rest() {
    let mut list = vec![frozen(1, 1), frozen(2, 5), frozen(3, 0), frozen(4, 2)];
    let step = update_time_freeze(&mut list);
    assert_eq!(list, vec![frozen(2, 4), frozen(4, 1)]);
    assert_eq!(step.thawed, vec![1, 3]);
    assert!(step.any_frozen);
    let step = update_time_freeze(&mut list);
    assert_eq!(list, vec![frozen(2, 3)]);
    assert_eq!(step.thawed, vec![4]);
    assert!(step.any_frozen);
}

#[test]
fn freeze_lasts_its_frame_count() {
    let mut list = vec![frozen(7, 15)];
    for _ in 0..14 {
        let step = update_time_freeze(&mut list);
        assert!(step.thawed.is_empty());
        assert!(step.any_frozen);
    }
    assert_eq!(list, vec![frozen(7, 1)]);
    let step = update_time_freeze(&mut list);
    assert_eq!(step.thawed, vec![7]);
    assert!(!step.any_frozen);
    assert!(list.is_empty());
}

#[test]
fn movement_blocked_only_while_frames_remain() {
    assert!(blocks_movement(&Some(TimeFreeze { frames_remaining: 3 })));
    assert!(!blocks_movement(&Some(TimeFreeze { frames_remaining: 0 })));
    assert!(!blocks_movement(&Some(TimeFreeze { frames_remaining: -2 })));
    assert!(!blocks_movement(&None));
    assert_eq!(TimeFreeze::default(), TimeFreeze { frames_remaining: 0 });
}

#[test]
fn freeze_lasts_its_frame_count_among_others() {
    let mut list = vec![frozen(1, 3), frozen(2, 1), frozen(3, 6), frozen(4, -4)];
    for k in 1..=8i16 {
        update_time_freeze(&mut list);
        let of_3: Vec<i16> = list.iter().filter(|f| f.entity == 3).map(|f| f.freeze.frames_remaining).collect();
        if k < 6 {
            assert_eq!(of_3, vec![6 - k]);
        } else {
            assert!(of_3.is_empty());
        }
        assert!(list.iter().all(|f| f.freeze.frames_remaining > 0));
    }
    assert!(list.is_empty());
}
