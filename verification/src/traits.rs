//! What a host of the engine implements and reports.

use crate::errors::UiError;
use vstd::prelude::*;

verus! {

/// A host that can put a new puzzle in front of the player.
pub trait Ui {
    /// Replaces the game that the host holds with a new random puzzle.
    fn new_random_game(&mut self) -> Result<(), UiError>;
}

/// What a screen reports after it has looked at an event.
#[derive(Debug, Clone, Copy, PartialEq, Eq, Structural)]
pub enum ScreenOutcome {
    /// Nothing changed: nothing needs to be drawn.
    Unchanged,
    /// The screen changed and is to be drawn again.
    Updated,
    /// The player asked to go on with the game at hand.
    Resume,
    /// The player asked for a new game.
    NewGame,
    /// The player asked to leave.
    Exit,
}

} // verus!
