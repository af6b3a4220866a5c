//! Game-state transitions driven by the player's keys and buttons.
use vstd::prelude::*;

verus! {

/// Whether a game in progress is being played or is paused.
#[derive(Clone, Copy, PartialEq, Eq, Structural, Debug)]
pub enum GameState {
    Paused,
    Playing,
}

/// The state Escape switches to: it pauses a game being played and resumes
/// a paused one.
pub open spec fn escape_target(state: GameState) -> GameState {
    match state {
        GameState::Playing => GameState::Paused,
        GameState::Paused => GameState::Playing,
    }
}

/// One frame of the game loop: Slash flips the debug flag, Escape switches
/// between playing and paused. Gives the new debug flag and the state to
/// switch to, if any.
pub fn game_loop_step(debug: bool, state: GameState, slash: bool, escape: bool) -> (r: (
    bool,
    Option<GameState>,
))
    ensures
        r.0 == (debug != slash),
        r.1 == if escape {
            Some(escape_target(state))
        } else {
            None
        },
{
    let debug = if slash {
        !debug
    } else {
        debug
    };
    let next = if escape {
        match state {
            GameState::Playing => Some(GameState::Paused),
            GameState::Paused => Some(GameState::Playing),
        }
    } else {
        None
    };
    (debug, next)
}

/// Pressing Escape twice returns to the state before: pausing and resuming
/// undo each other.
pub proof fn lemma_escape_twice(state: GameState)
    ensures
        escape_target(escape_target(state)) == state,
        escape_target(state) != state,
{
}

/// The fire input of a frame.
#[derive(Clone, Copy, PartialEq, Eq, Structural, Debug)]
pub enum InputMessage {
    FireWeapon,
    FireWeaponHeld,
}

/// The fire input of a frame: a shot where a fire key or button was pressed
/// in this frame, else a held trigger where one is held down, else nothing.
pub fn fire_input(just_pressed: bool, held: bool) -> (r: Option<InputMessage>)
    ensures
        r == if just_pressed {
            Some(InputMessage::FireWeapon)
        } else if held {
            Some(InputMessage::FireWeaponHeld)
        } else {
            None
        },
{
    if just_pressed {
        Some(InputMessage::FireWeapon)
    } else if held {
        Some(InputMessage::FireWeaponHeld)
    } else {
        None
    }
}

/// How the game window is shown.
#[derive(Clone, Copy, PartialEq, Eq, Structural, Debug)]
pub enum ScreenMode {
    BorderlessFullscreen,
    Windowed,
}

/// The full-screen key: flips the `maximized` flag and gives the window mode
/// that goes with the new flag.
pub fn toggle_fullscreen(maximized: bool) -> (r: (bool, ScreenMode))
    ensures
        r.0 == !maximized,
        r.1 == if !maximized {
            ScreenMode::BorderlessFullscreen
        } else {
            ScreenMode::Windowed
        },
{
    let m = !maximized;
    (
        m,
        if m {
            ScreenMode::BorderlessFullscreen
        } else {
            ScreenMode::Windowed
        },
    )
}

} // verus!
