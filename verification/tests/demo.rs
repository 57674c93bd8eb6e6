use vscr_core::demo::animation::{check_clip, next_frame_index, ClipError, ClipGrid};
use vscr_core::demo::assets::{find_scene_path, scene_path};
use vscr_core::demo::controls::{
    binding_for_player, decide_control, fighters_respond, toggle_input_mode, tuning_responds, ActionState, ActiveInputMode,
    ControlAction, ControlInput,
    DemoMode, InputMode, Key,
};
use vscr_core::demo::scene::{check_animation_set, AnimationSetError, StateClip};
use vscr_core::demo::tuning::{
    sorted_player_ids, tuning_keyboard_decision, Adjustment, ResetScope, TuneField, TuningDecision, TuningKeys,
};

#[test]
fn frames_advance_and_loop() {
    assert_eq!(next_frame_index(2, 2, 5, true), 3);
    assert_eq!(next_frame_index(5, 2, 5, true), 2);
    assert_eq!(next_frame_index(5, 2, 5, false), 5);
    assert_eq!(next_frame_index(9, 2, 5, true), 2);
    let mut i = 2;
    for _ in 0..4 {
        i = next_frame_index(i, 2, 5, true);
    }
    assert_eq!(i, 2);
}

fn grid(columns: u32, rows: u32, first: usize, last: usize) -> ClipGrid {
    ClipGrid { frame_width: 32, frame_height: 48, columns, rows, first, last }
}

#[test]
fn clip_grids_are_checked_in_order() {
    assert_eq!(check_clip(&grid(4, 2, 0, 7)), Ok(8));
    assert_eq!(check_clip(&ClipGrid { frame_width: 0, ..grid(4, 2, 0, 7) }), Err(ClipError::InvalidFrameSize));
    assert_eq!(check_clip(&grid(0, 2, 0, 0)), Err(ClipError::InvalidGrid));
    assert_eq!(check_clip(&grid(4, 2, 3, 8)), Err(ClipError::InvalidRange { frame_count: 8 }));
    assert_eq!(check_clip(&grid(4, 2, 5, 4)), Err(ClipError::InvalidRange { frame_count: 8 }));
    assert_eq!(check_clip(&grid(u32::MAX, 2, 0, 0)), Err(ClipError::GridOverflow));
}

#[test]
fn f1_toggles_input_mode() {
    let mut mode = ActiveInputMode::default();
    assert_eq!(mode.mode, InputMode::CharacterControl);
    toggle_input_mode(&mut mode, false);
    assert_eq!(mode.mode, InputMode::CharacterControl);
    toggle_input_mode(&mut mode, true);
    assert_eq!(mode.mode, InputMode::Debug);
    toggle_input_mode(&mut mode, true);
    assert_eq!(mode.mode, InputMode::CharacterControl);
    assert!(!DemoMode::default().stage_only);
}

#[test]
fn players_one_and_two_have_bindings() {
    let p1 = binding_for_player(1).unwrap();
    assert_eq!((p1.left, p1.right, p1.jump, p1.attack, p1.throw), (Key::A, Key::D, Key::W, Key::J, Key::K));
    let p2 = binding_for_player(2).unwrap();
    assert_eq!(
        (p2.left, p2.right, p2.jump, p2.attack, p2.throw),
        (Key::ArrowLeft, Key::ArrowRight, Key::ArrowUp, Key::N, Key::M)
    );
    assert!(binding_for_player(0).is_none());
    assert!(binding_for_player(3).is_none());
}

fn idle_input() -> ControlInput {
    ControlInput {
        locked: false,
        throw_just_pressed: false,
        attack_just_pressed: false,
        left_held: false,
        right_held: false,
        airborne: false,
        rising: false,
        has_jump_up_clip: false,
        has_jump_down_clip: false,
        has_jump_clip: false,
    }
}

#[test]
fn control_priorities() {
    let all = ControlInput { locked: true, throw_just_pressed: true, attack_just_pressed: true, ..idle_input() };
    assert_eq!(decide_control(&all), ControlAction::Locked);
    assert_eq!(decide_control(&ControlInput { locked: false, ..all }), ControlAction::Throw);
    assert_eq!(
        decide_control(&ControlInput { attack_just_pressed: true, left_held: true, ..idle_input() }),
        ControlAction::Attack
    );
    assert_eq!(
        decide_control(&ControlInput { left_held: true, ..idle_input() }),
        ControlAction::Move { axis: -1, state: ActionState::Walk }
    );
    assert_eq!(
        decide_control(&ControlInput { left_held: true, right_held: true, ..idle_input() }),
        ControlAction::Move { axis: 0, state: ActionState::Idle }
    );
}

#[test]
fn airborne_state_falls_back_through_clips() {
    let air = ControlInput { airborne: true, rising: true, right_held: true, ..idle_input() };
    assert_eq!(decide_control(&air), ControlAction::Move { axis: 1, state: ActionState::Walk });
    assert_eq!(
        decide_control(&ControlInput { has_jump_clip: true, ..air }),
        ControlAction::Move { axis: 1, state: ActionState::Jump }
    );
    assert_eq!(
        decide_control(&ControlInput { has_jump_up_clip: true, ..air }),
        ControlAction::Move { axis: 1, state: ActionState::JumpUp }
    );
    let falling = ControlInput { rising: false, has_jump_down_clip: true, ..air };
    assert_eq!(decide_control(&falling), ControlAction::Move { axis: 1, state: ActionState::JumpDown });
    assert_eq!(ActionState::JumpDown.name(), "jump_down");
    assert_eq!(ActionState::Idle.name(), "idle");
}

fn no_keys() -> TuningKeys {
    TuningKeys {
        tab: false,
        reset: false,
        shift_left: false,
        shift_right: false,
        digit1: false,
        digit2: false,
        digit3: false,
        digit4: false,
        right: false,
        up: false,
        left: false,
        down: false,
    }
}

#[test]
fn player_ids_are_sorted_and_unique() {
    assert_eq!(sorted_player_ids(&vec![3, 1, 2, 3, 1]), vec![1, 2, 3]);
    assert_eq!(sorted_player_ids(&vec![]), Vec::<u8>::new());
}

#[test]
fn tuning_selection_falls_back_and_tab_cycles() {
    let ids = vec![2, 1, 2];
    assert_eq!(tuning_keyboard_decision(&vec![], 1, TuneField::Scale, &no_keys()), None);
    let d = tuning_keyboard_decision(&ids, 7, TuneField::Scale, &no_keys()).unwrap();
    assert_eq!(
        d,
        TuningDecision { selected_player: 1, selected_field: TuneField::Scale, reset: ResetScope::Keep, adjust: None }
    );
    let tab = TuningKeys { tab: true, ..no_keys() };
    assert_eq!(tuning_keyboard_decision(&ids, 1, TuneField::Scale, &tab).unwrap().selected_player, 2);
    assert_eq!(tuning_keyboard_decision(&ids, 2, TuneField::Scale, &tab).unwrap().selected_player, 1);
    let mut sel = 1;
    for _ in 0..2 {
        sel = tuning_keyboard_decision(&ids, sel, TuneField::Scale, &tab).unwrap().selected_player;
    }
    assert_eq!(sel, 1);
}

#[test]
fn tuning_reset_field_and_nudge() {
    let ids = vec![1, 2];
    let keys = TuningKeys { reset: true, shift_right: true, digit1: true, digit3: true, up: true, ..no_keys() };
    let d = tuning_keyboard_decision(&ids, 2, TuneField::PosX, &keys).unwrap();
    assert_eq!(d.reset, ResetScope::All);
    assert_eq!(d.selected_field, TuneField::Scale);
    assert_eq!(d.adjust, Some(Adjustment { positive: true, fine: true }));
    let keys = TuningKeys { reset: true, left: true, digit4: true, ..no_keys() };
    let d = tuning_keyboard_decision(&ids, 2, TuneField::PosX, &keys).unwrap();
    assert_eq!(d.reset, ResetScope::Selected);
    assert_eq!(d.selected_field, TuneField::GroundY);
    assert_eq!(d.adjust, Some(Adjustment { positive: false, fine: false }));
    let both = TuningKeys { left: true, right: true, ..no_keys() };
    assert_eq!(tuning_keyboard_decision(&ids, 2, TuneField::PosY, &both).unwrap().adjust, None);
    assert_eq!(TuneField::GroundY.label(), "ground_y");
    assert_eq!(TuneField::PosX.label(), "pos_x");
}

fn entry(state: &str, clip: &str) -> StateClip {
    StateClip { state: state.to_string(), clip: clip.to_string() }
}

#[test]
fn animation_sets_need_known_clips_and_core_states() {
    let clips: Vec<String> = vec!["stand".to_string(), "run".to_string(), "punch".to_string(), "toss".to_string()];
    let good = vec![entry("idle", "stand"), entry("walk", "run"), entry("attack", "punch"), entry("throw", "toss")];
    assert!(check_animation_set(&clips, &good).is_ok());
    let bad = vec![entry("idle", "stand"), entry("hurt", "ouch"), entry("jump", "hop")];
    match check_animation_set(&clips, &bad) {
        Err(AnimationSetError::MissingClip { state, clip }) => {
            assert_eq!(state, "hurt");
            assert_eq!(clip, "ouch");
        }
        other => panic!("unexpected {:?}", other),
    }
    let missing_walk = vec![entry("idle", "stand"), entry("attack", "punch")];
    match check_animation_set(&clips, &missing_walk) {
        Err(AnimationSetError::MissingState { state }) => assert_eq!(state, ActionState::Walk),
        other => panic!("unexpected {:?}", other),
    }
}

#[test]
fn scene_path_is_two_levels_above_manifest() {
    let p = scene_path("/work/repo/crates/vscr-demo-test");
    assert_eq!(p, "/work/repo/assets/demo/scene.toml");
    assert_eq!(find_scene_path("/work/repo/crates/x"), Some("/work/repo/assets/demo/scene.toml".to_string()));
    assert_eq!(find_scene_path("crate"), None);
    assert_eq!(find_scene_path("/"), None);
}

#[test]
fn one_shot_clip_holds_last_frame() {
    let mut i = 0;
    for _ in 0..10 {
        i = next_frame_index(i, 0, 3, false);
    }
    assert_eq!(i, 3);
}

#[test]
fn mode_gates_and_labels() {
    let control = ActiveInputMode { mode: InputMode::CharacterControl };
    let debug = ActiveInputMode { mode: InputMode::Debug };
    assert!(fighters_respond(&control));
    assert!(!fighters_respond(&debug));
    assert!(tuning_responds(&debug));
    assert!(!tuning_responds(&control));
    assert_eq!(InputMode::Debug.label(), "DEBUG");
    assert_eq!(InputMode::CharacterControl.label(), "CONTROL");
}
