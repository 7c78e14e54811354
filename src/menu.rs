//! The menu/playing state machine and the inputs that move it.
use vstd::prelude::*;

verus! {

/// The states of the surrounding state machine.
#[derive(Clone, Copy, Debug, PartialEq, Eq, Hash, Structural)]
pub enum GameState {
    Menu,
    Playing,
    Credits,
    GameOver,
}

impl Default for GameState {
    /// The machine starts in the menu.
    fn default() -> (r: GameState)
        ensures
            r == GameState::Menu,
    {
        GameState::Menu
    }
}

/// In the menu, a click, Enter or Space starts play. Returns the state to
/// move to, if any.
pub fn start_on_input(state: GameState, click: bool, enter: bool, space: bool) -> (r: Option<GameState>)
    ensures
        r == if state == GameState::Menu && (click || enter || space) {
            Some(GameState::Playing)
        } else {
            None
        },
{
    if state == GameState::Menu && (click || enter || space) {
        Some(GameState::Playing)
    } else {
        None
    }
}

/// While playing, Escape, Q or Backspace quits to the menu. Returns the state
/// to move to, if any.
pub fn quit_to_menu_on_input(state: GameState, escape: bool, q: bool, backspace: bool) -> (r: Option<GameState>)
    ensures
        r == if state == GameState::Playing && (escape || q || backspace) {
            Some(GameState::Menu)
        } else {
            None
        },
{
    if state == GameState::Playing && (escape || q || backspace) {
        Some(GameState::Menu)
    } else {
        None
    }
}

} // verus!
