use vstd::prelude::*;

verus! {

/// What the keyboard drives: the tuning tools or the fighters.
#[derive(Clone, Copy, Debug, PartialEq, Eq, Structural)]
pub enum InputMode {
    Debug,
    CharacterControl,
}

/// The input mode in use.
#[derive(Clone, Copy, Debug, PartialEq, Eq, Structural)]
pub struct ActiveInputMode {
    pub mode: InputMode,
}

impl Default for ActiveInputMode {
    /// The demo starts with the fighters under control.
    fn default() -> (res: ActiveInputMode)
        ensures
            res.mode == InputMode::CharacterControl,
    {
        ActiveInputMode { mode: InputMode::CharacterControl }
    }
}

/// Switches between the tuning tools and fighter control when the toggle key
/// (F1) was just pressed; otherwise leaves the mode as it is.
pub fn toggle_input_mode(mode: &mut ActiveInputMode, toggle_just_pressed: bool)
    ensures
        final(mode).mode == if !toggle_just_pressed {
            old(mode).mode
        } else if old(mode).mode == InputMode::Debug {
            InputMode::CharacterControl
        } else {
            InputMode::Debug
        },
{
    if !toggle_just_pressed {
        return;
    }
    mode.mode = match mode.mode {
        InputMode::Debug => InputMode::CharacterControl,
        InputMode::CharacterControl => InputMode::Debug,
    };
}

/// The label of an input mode shown in the tuning display.
pub open spec fn mode_label(m: InputMode) -> Seq<char> {
    match m {
        InputMode::Debug => "DEBUG"@,
        InputMode::CharacterControl => "CONTROL"@,
    }
}

impl InputMode {
    /// The label shown for the mode.
    pub fn label(&self) -> (res: &'static str)
        ensures
            res@ == mode_label(*self),
    {
        match self {
            InputMode::Debug => "DEBUG",
            InputMode::CharacterControl => "CONTROL",
        }
    }
}

/// Whether the fighters answer to their keys: only under fighter control.
pub fn fighters_respond(mode: &ActiveInputMode) -> (res: bool)
    ensures
        res == (mode.mode == InputMode::CharacterControl),
{
    match mode.mode {
        InputMode::CharacterControl => true,
        InputMode::Debug => false,
    }
}

/// Whether the tuning tools answer to keys, mouse and buttons: only in the
/// debug mode.
pub fn tuning_responds(mode: &ActiveInputMode) -> (res: bool)
    ensures
        res == (mode.mode == InputMode::Debug),
{
    match mode.mode {
        InputMode::Debug => true,
        InputMode::CharacterControl => false,
    }
}

/// Whether the demo shows only the stage, without fighters.
#[derive(Clone, Copy, Debug, PartialEq, Eq, Structural)]
pub struct DemoMode {
    pub stage_only: bool,
}

impl Default for DemoMode {
    /// By default the whole scene is loaded.
    fn default() -> (res: DemoMode)
        ensures
            !res.stage_only,
    {
        DemoMode { stage_only: false }
    }
}

/// The keys the demo binds to fighter actions.
#[derive(Clone, Copy, Debug, PartialEq, Eq, Structural)]
pub enum Key {
    A,
    D,
    W,
    J,
    K,
    N,
    M,
    ArrowLeft,
    ArrowRight,
    ArrowUp,
}

/// The keys of one player's controls.
#[derive(Clone, Copy, Debug, PartialEq, Eq, Structural)]
pub struct PlayerInputBinding {
    pub left: Key,
    pub right: Key,
    pub jump: Key,
    pub attack: Key,
    pub throw: Key,
}

/// The controls of player `id`: player 1 plays with A/D/W/J/K, player 2 with
/// the arrows and N/M; no other player has controls.
pub open spec fn binding_spec(id: u8) -> Option<PlayerInputBinding> {
    if id == 1 {
        Some(PlayerInputBinding { left: Key::A, right: Key::D, jump: Key::W, attack: Key::J, throw: Key::K })
    } else if id == 2 {
        Some(
            PlayerInputBinding {
                left: Key::ArrowLeft,
                right: Key::ArrowRight,
                jump: Key::ArrowUp,
                attack: Key::N,
                throw: Key::M,
            },
        )
    } else {
        None
    }
}

/// The key bindings of a player, if it has any.
pub fn binding_for_player(player_id: u8) -> (res: Option<PlayerInputBinding>)
    ensures
        res == binding_spec(player_id),
{
    match player_id {
        1 => Some(PlayerInputBinding { left: Key::A, right: Key::D, jump: Key::W, attack: Key::J, throw: Key::K }),
        2 => Some(
            PlayerInputBinding {
                left: Key::ArrowLeft,
                right: Key::ArrowRight,
                jump: Key::ArrowUp,
                attack: Key::N,
                throw: Key::M,
            },
        ),
        _ => None,
    }
}

/// A fighter's action state, each with the name it has in a fighter's
/// animation state map.
#[derive(Clone, Copy, Debug, PartialEq, Eq, Structural)]
pub enum ActionState {
    Idle,
    Walk,
    Attack,
    Throw,
    Hurt,
    Jump,
    JumpUp,
    JumpDown,
}

impl ActionState {
    /// The name of the state in a fighter's animation state map.
    pub fn name(&self) -> (res: &'static str)
        ensures
            res@ == action_name(*self),
    {
        match self {
            ActionState::Idle => "idle",
            ActionState::Walk => "walk",
            ActionState::Attack => "attack",
            ActionState::Throw => "throw",
            ActionState::Hurt => "hurt",
            ActionState::Jump => "jump",
            ActionState::JumpUp => "jump_up",
            ActionState::JumpDown => "jump_down",
        }
    }
}

/// The name of an action state in a fighter's animation state map.
pub open spec fn action_name(s: ActionState) -> Seq<char> {
    match s {
        ActionState::Idle => "idle"@,
        ActionState::Walk => "walk"@,
        ActionState::Attack => "attack"@,
        ActionState::Throw => "throw"@,
        ActionState::Hurt => "hurt"@,
        ActionState::Jump => "jump"@,
        ActionState::JumpUp => "jump_up"@,
        ActionState::JumpDown => "jump_down"@,
    }
}

/// What a controlled fighter does this frame.
#[derive(Clone, Copy, Debug, PartialEq, Eq, Structural)]
pub enum ControlAction {
    /// An attack or throw is still playing: only its lock counts down.
    Locked,
    /// Throw a shuriken.
    Throw,
    /// Attack.
    Attack,
    /// Walk along `axis` (-1 left, 0 stand, 1 right) and show `state`.
    Move { axis: i8, state: ActionState },
}

/// The keys of one fighter's controls as seen this frame, and what the
/// fighter's situation and animation set allow.
#[derive(Clone, Copy, Debug, PartialEq, Eq, Structural)]
pub struct ControlInput {
    /// An attack or throw animation still locks the fighter.
    pub locked: bool,
    pub throw_just_pressed: bool,
    pub attack_just_pressed: bool,
    pub left_held: bool,
    pub right_held: bool,
    /// The fighter is above the ground.
    pub airborne: bool,
    /// Its vertical velocity is zero or upward.
    pub rising: bool,
    pub has_jump_up_clip: bool,
    pub has_jump_down_clip: bool,
    pub has_jump_clip: bool,
}

/// The walking direction: -1 for left alone, 1 for right alone, 0 otherwise.
pub open spec fn axis_spec(left: bool, right: bool) -> i8 {
    if left && !right {
        -1i8
    } else if right && !left {
        1
    } else {
        0
    }
}

/// The state shown while free to move: in the air, the rising or falling
/// jump state (each falls back on the plain jump state when the fighter has
/// no clip for it), if the fighter has a clip for that; otherwise walking
/// when moving and idle when standing.
pub open spec fn free_state_spec(i: ControlInput) -> ActionState {
    let ground = if axis_spec(i.left_held, i.right_held) != 0 { ActionState::Walk } else { ActionState::Idle };
    if i.airborne {
        let air = if i.rising {
            if i.has_jump_up_clip { ActionState::JumpUp } else { ActionState::Jump }
        } else if i.has_jump_down_clip {
            ActionState::JumpDown
        } else {
            ActionState::Jump
        };
        let has_air_clip = match air {
            ActionState::JumpUp => i.has_jump_up_clip,
            ActionState::JumpDown => i.has_jump_down_clip,
            _ => i.has_jump_clip,
        };
        if has_air_clip { air } else { ground }
    } else {
        ground
    }
}

/// What the fighter does: a running lock comes first, then a throw, then an
/// attack, and otherwise it moves as its direction keys say.
pub open spec fn control_spec(i: ControlInput) -> ControlAction {
    if i.locked {
        ControlAction::Locked
    } else if i.throw_just_pressed {
        ControlAction::Throw
    } else if i.attack_just_pressed {
        ControlAction::Attack
    } else {
        ControlAction::Move { axis: axis_spec(i.left_held, i.right_held), state: free_state_spec(i) }
    }
}

/// Decides a controlled fighter's action for this frame.
pub fn decide_control(i: &ControlInput) -> (res: ControlAction)
    ensures
        res == control_spec(*i),
{
    if i.locked {
        return ControlAction::Locked;
    }
    if i.throw_just_pressed {
        return ControlAction::Throw;
    }
    if i.attack_just_pressed {
        return ControlAction::Attack;
    }
    let mut axis: i8 = 0;
    if i.left_held {
        axis = axis - 1;
    }
    if i.right_held {
        axis = axis + 1;
    }
    let mut state = if axis != 0 { ActionState::Walk } else { ActionState::Idle };
    if i.airborne {
        let air = if i.rising {
            if i.has_jump_up_clip { ActionState::JumpUp } else { ActionState::Jump }
        } else if i.has_jump_down_clip {
            ActionState::JumpDown
        } else {
            ActionState::Jump
        };
        let has_air_clip = match air {
            ActionState::JumpUp => i.has_jump_up_clip,
            ActionState::JumpDown => i.has_jump_down_clip,
            _ => i.has_jump_clip,
        };
        if has_air_clip {
            state = air;
        }
    }
    ControlAction::Move { axis, state }
}

/// What a fighter does, in terms of its keys and situation: a running lock
/// wins over everything, then a throw, then an attack. Otherwise the fighter
/// walks by +1 for right alone and -1 for left alone (0 for both or none),
/// and is shown: rising in the air, in the rising jump state when it has
/// that clip, else in the plain jump state when it has that clip; falling in
/// the air, in the falling jump state when it has that clip, else in the
/// plain jump state when it has that clip; and otherwise walking when it
/// moves and idle when it does not.
pub proof fn lemma_control_rules(i: ControlInput)
    ensures
        ({
            let action = control_spec(i);
            let axis: int = (if i.right_held { 1int } else { 0int }) - (if i.left_held { 1int } else { 0int });
            let ground = if axis != 0 { ActionState::Walk } else { ActionState::Idle };
            let shown = if i.airborne && i.rising && i.has_jump_up_clip {
                ActionState::JumpUp
            } else if i.airborne && !i.rising && i.has_jump_down_clip {
                ActionState::JumpDown
            } else if i.airborne && i.has_jump_clip {
                ActionState::Jump
            } else {
                ground
            };
            &&& i.locked ==> action == ControlAction::Locked
            &&& !i.locked && i.throw_just_pressed ==> action == ControlAction::Throw
            &&& !i.locked && !i.throw_just_pressed && i.attack_just_pressed ==> action == ControlAction::Attack
            &&& !i.locked && !i.throw_just_pressed && !i.attack_just_pressed ==> (action matches ControlAction::Move {
                axis: a,
                state,
            } && a as int == axis && state == shown)
        }),
{
}

} // verus!
