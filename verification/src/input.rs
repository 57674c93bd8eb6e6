use vstd::prelude::*;
use crate::tags::PlayerTag;

verus! {

/// The set of buttons held in one frame, one bit per button.
#[derive(Clone, Copy, Debug, PartialEq, Eq, Structural)]
pub struct Buttons {
    pub bits: u16,
}

/// Bit of the "left" button.
pub const LEFT: u16 = 0b00000001;
/// Bit of the "right" button.
pub const RIGHT: u16 = 0b00000010;
/// Bit of the "up" button.
pub const UP: u16 = 0b00000100;
/// Bit of the "down" button.
pub const DOWN: u16 = 0b00001000;
/// Bit of the light attack button.
pub const A: u16 = 0b00010000;
/// Bit of the medium attack button.
pub const B: u16 = 0b00100000;
/// Bit of the heavy attack button.
pub const C: u16 = 0b01000000;
/// Bit of the special button.
pub const D: u16 = 0b10000000;
/// All button bits.
pub const ALL: u16 = 0b11111111;

impl Buttons {
    /// No button held.
    pub fn empty() -> (res: Buttons)
        ensures
            res.bits == 0,
    {
        Buttons { bits: 0 }
    }

    /// The set of the buttons whose bits are set in `bits`; other bits are
    /// dropped.
    pub fn from_bits_truncate(bits: u16) -> (res: Buttons)
        ensures
            res.bits == bits & ALL,
    {
        Buttons { bits: bits & ALL }
    }

    /// The bits of the set.
    pub fn bits(&self) -> (res: u16)
        ensures
            res == self.bits,
    {
        self.bits
    }
}

/// Declares the fixed-capacity vector of the `heapless` crate.
#[verifier::external_type_specification]
#[verifier::external_body]
#[verifier::reject_recursive_types(T)]
pub struct ExHeaplessVec<T, const N: usize>(heapless::Vec<T, N>);

/// The button sets a history holds, oldest first, by their bits.
pub uninterp spec fn history_contents(h: heapless::Vec<Buttons, 32>) -> Seq<u16>;

/// Calls `heapless::Vec::new`, which the crate documents as constructing an
/// empty vector of fixed capacity; the contract claims it holds nothing.
#[verifier::external_body]
fn empty_history() -> (h: heapless::Vec<Buttons, 32>)
    ensures
        history_contents(h) == Seq::<u16>::empty(),
{
    heapless::Vec::new()
}

/// A fighter's buffered input: the buttons held now, for how many frames
/// they have been held unchanged, and room for up to 32 past button sets.
#[derive(Debug)]
pub struct InputBuffer {
    pub current: Buttons,
    pub frames_held: u8,
    pub history: heapless::Vec<Buttons, 32>,
}

impl Default for InputBuffer {
    fn default() -> (res: InputBuffer)
        ensures
            res.current.bits == 0,
            res.frames_held == 0,
            history_contents(res.history) == Seq::<u16>::empty(),
    {
        InputBuffer { current: Buttons::empty(), frames_held: 0, history: empty_history() }
    }
}

/// The buttons each player holds this frame.
#[derive(Clone, Copy, Debug, PartialEq, Eq, Structural)]
pub struct PlayerInputState {
    pub p1_buttons: Buttons,
    pub p2_buttons: Buttons,
}

impl Default for PlayerInputState {
    fn default() -> (res: PlayerInputState)
        ensures
            res.p1_buttons.bits == 0,
            res.p2_buttons.bits == 0,
    {
        PlayerInputState { p1_buttons: Buttons::empty(), p2_buttons: Buttons::empty() }
    }
}

/// The buttons that player `id` holds: players 1 and 2 have theirs, any
/// other id holds none.
pub open spec fn buttons_for(input: PlayerInputState, id: u8) -> Buttons {
    if id == 1 {
        input.p1_buttons
    } else if id == 2 {
        input.p2_buttons
    } else {
        Buttons { bits: 0 }
    }
}

/// `n + 1`, held at `u8::MAX`.
pub open spec fn saturating_inc_u8(n: u8) -> u8 {
    if n == u8::MAX { n } else { (n + 1) as u8 }
}

/// The buffer after one frame in which the player holds `b`.
pub open spec fn buffered(current: Buttons, frames_held: u8, b: Buttons) -> (Buttons, u8) {
    if current == b { (current, saturating_inc_u8(frames_held)) } else { (b, 0) }
}

/// Copies this frame's buttons of the tagged player into its buffer: the
/// hold counter goes up (saturating) while the buttons stay the same, and
/// restarts at zero when they change. The history is left as it is.
pub fn apply_player_input(tag: &PlayerTag, buffer: &mut InputBuffer, input: &PlayerInputState)
    ensures
        (final(buffer).current, final(buffer).frames_held) == buffered(
            old(buffer).current,
            old(buffer).frames_held,
            buttons_for(*input, tag.id),
        ),
        final(buffer).history == old(buffer).history,
{
    let buttons = if tag.id == 1 {
        input.p1_buttons
    } else if tag.id == 2 {
        input.p2_buttons
    } else {
        Buttons::empty()
    };
    if buffer.current == buttons {
        buffer.frames_held = buffer.frames_held.saturating_add(1);
    } else {
        buffer.current = buttons;
        buffer.frames_held = 0;
    }
}

/// The buffer's button set and hold counter after `n` frames of holding `b`.
pub open spec fn held_for(current: Buttons, frames_held: u8, b: Buttons, n: nat) -> (Buttons, u8)
    decreases n,
{
    if n == 0 {
        (current, frames_held)
    } else {
        let (c, f) = buffered(current, frames_held, b);
        held_for(c, f, b, (n - 1) as nat)
    }
}

proof fn lemma_hold_counts(b: Buttons, frames_held: u8, n: nat)
    ensures
        held_for(b, frames_held, b, n) == (b, if frames_held + n > u8::MAX { u8::MAX } else { (frames_held
            + n) as u8 }),
    decreases n,
{
    if n > 0 {
        lemma_hold_counts(b, saturating_inc_u8(frames_held), (n - 1) as nat);
    }
}

/// The hold counter counts the frames a button set has been held without a
/// change: after the buttons change to `b` and are then held for `n` more
/// frames, the buffer shows `b` held for `n` frames (at most 255).
pub proof fn lemma_frames_held_counts(current: Buttons, frames_held: u8, b: Buttons, n: nat)
    requires
        current != b,
    ensures
        held_for(current, frames_held, b, n + 1) == (b, if n > u8::MAX { u8::MAX } else { n as u8 }),
{
    lemma_hold_counts(b, 0, n);
}

} // verus!
