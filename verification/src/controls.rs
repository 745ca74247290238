//! The control surface of the terminal application: the directions a cursor
//! can move in, and the actions every application screen must support.

use vstd::prelude::*;

use crate::MinesweeperError;

verus! {

/// The available directions to move the cursor to.
#[derive(Clone, Copy, Debug, PartialEq, Eq)]
pub enum MoveCursorDirection {
    Up,
    Left,
    Down,
    Right,
}

/// The support for the application controls: each application screen must
/// know what to do when one of these is requested. Every control keeps the
/// screen well-formed in the screen's own sense.
pub trait ControlsSupport {
    /// What it means for this screen to be in a usable state.
    spec fn wf(&self) -> bool;

    /// Moves the cursor one step in the given direction.
    fn move_cursor(&mut self, direction: MoveCursorDirection)
        requires
            old(self).wf(),
        ensures
            final(self).wf(),
    ;

    /// Performs the screen's main action: starting a game from the menu, or
    /// opening cells in a game.
    fn perform_main_action(&mut self) -> (result: Result<(), MinesweeperError>)
        requires
            old(self).wf(),
        ensures
            final(self).wf(),
    ;

    /// Performs the screen's secondary action: restoring a default in the
    /// menu, or toggling a flag in a game.
    fn perform_secondary_action(&mut self) -> (result: Result<(), MinesweeperError>)
        requires
            old(self).wf(),
        ensures
            final(self).wf(),
    ;

    /// Toggles the pause of an ongoing game; nothing happens in the menu.
    fn pause(&mut self)
        requires
            old(self).wf(),
        ensures
            final(self).wf(),
    ;

    /// Asks to leave the screen, urgently when `force` is set.
    fn leave(&mut self, force: bool)
        requires
            old(self).wf(),
        ensures
            final(self).wf(),
    ;
}

} // verus!
