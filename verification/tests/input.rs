use vscr_core::input::{apply_player_input, Buttons, InputBuffer, PlayerInputState, A, ALL, LEFT, RIGHT};
use vscr_core::tags::PlayerTag;

#[test]
fn default_buffer_is_empty() {
    let b = InputBuffer::default();
    assert_eq!(b.current, Buttons::empty());
    assert_eq!(b.frames_held, 0);
    assert!(b.history.is_empty());
    assert_eq!(PlayerInputState::default().p1_buttons.bits(), 0);
}

#[test]
fn buttons_keep_only_known_bits() {
    assert_eq!(Buttons::from_bits_truncate(0xFF01).bits(), 0x01);
    assert_eq!(Buttons::from_bits_truncate(LEFT | A).bits(), 0b0001_0001);
    assert_eq!(ALL, 0xFF);
}

#[test]
fn holding_counts_frames_and_change_resets() {
    let input = PlayerInputState {
        p1_buttons: Buttons::from_bits_truncate(RIGHT),
        p2_buttons: Buttons::from_bits_truncate(LEFT),
    };
    let mut buf = InputBuffer::default();
    let p1 = PlayerTag { id: 1 };
    apply_player_input(&p1, &mut buf, &input);
    assert_eq!((buf.current.bits(), buf.frames_held), (RIGHT, 0));
    apply_player_input(&p1, &mut buf, &input);
    apply_player_input(&p1, &mut buf, &input);
    assert_eq!((buf.current.bits(), buf.frames_held), (RIGHT, 2));
    apply_player_input(&PlayerTag { id: 2 }, &mut buf, &input);
    assert_eq!((buf.current.bits(), buf.frames_held), (LEFT, 0));
}

#[test]
fn hold_counter_saturates_and_unknown_players_hold_nothing() {
    let input = PlayerInputState::default();
    let mut buf = InputBuffer::default();
    let p3 = PlayerTag { id: 3 };
    for _ in 0..300 {
        apply_player_input(&p3, &mut buf, &input);
    }
    assert_eq!(buf.current, Buttons::empty());
    assert_eq!(buf.frames_held, u8::MAX);
}
