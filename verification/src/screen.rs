//! The decisions of a windowed host: which cell a click lands on, what a click
//! does to the game and its selection, what a click on the menu asks for, and
//! which screen comes next.

use crate::board::Board;
use crate::cell::Cell;
use crate::errors::GameError;
use crate::game::Game;
use crate::traits::ScreenOutcome;
use vstd::prelude::*;

verus! {

/// The distance in pixels of the grid from the left edge of the window.
pub const OFFSET_X: i32 = 40;

/// The distance in pixels of the grid from the top edge of the window.
pub const OFFSET_Y: i32 = 40;

/// The side in pixels of the square that a cell is drawn in.
pub const BOX_SIZE: i32 = 35;

/// The screens of a windowed host.
#[derive(Debug, Clone, Copy, PartialEq, Eq, Structural)]
pub enum Screen {
    /// The menu.
    Main,
    /// The grid.
    Game,
}

impl Default for Screen {
    /// A host starts on the menu.
    fn default() -> (screen: Screen)
        ensures
            screen == Screen::Main,
    {
        Screen::Main
    }
}

impl Screen {
    /// The screen that comes after this one once `outcome` was reported: the
    /// grid where the player asked to resume or for a new game, and else the
    /// screen at hand.
    pub fn after(self, outcome: ScreenOutcome) -> (next: Screen)
        ensures
            next == match outcome {
                ScreenOutcome::Resume => Screen::Game,
                ScreenOutcome::NewGame => Screen::Game,
                _ => self,
            },
    {
        match outcome {
            ScreenOutcome::Resume | ScreenOutcome::NewGame => Screen::Game,
            _ => self,
        }
    }

    /// Whether the game at hand is to be resumed at the next launch: it is
    /// where the host is left from the grid before the game is over.
    pub fn keeps_game(self, over: bool) -> (keeps: bool)
        ensures
            keeps == (self == Screen::Game && !over),
    {
        self == Screen::Game && !over
    }
}

/// The row and the column of the cell that the pixel `(x, y)` lies in, on a
/// grid of `side` cells a side, if it lies in one.
pub open spec fn cell_under_spec(x: int, y: int, side: int) -> Option<(int, int)> {
    if x < OFFSET_X || x >= OFFSET_X + side * BOX_SIZE || y < OFFSET_Y || y >= OFFSET_Y + side
        * BOX_SIZE {
        None
    } else {
        Some(((y - OFFSET_Y) / (BOX_SIZE as int), (x - OFFSET_X) / (BOX_SIZE as int)))
    }
}

/// The row and the column of the cell that the pixel `(x, y)` lies in, on a
/// grid of `side_size` cells a side, if it lies in one.
pub fn cell_under(x: i32, y: i32, side_size: usize) -> (cell: Option<(usize, usize)>)
    requires
        side_size <= 225,
    ensures
        match cell {
            Some((row, col)) => cell_under_spec(x as int, y as int, side_size as int) == Some(
                (row as int, col as int),
            ) && row < side_size && col < side_size,
            None => cell_under_spec(x as int, y as int, side_size as int) is None,
        },
{
    let width = (side_size as i32) * BOX_SIZE;
    if x < OFFSET_X || x >= OFFSET_X + width || y < OFFSET_Y || y >= OFFSET_Y + width {
        None
    } else {
        let row = ((y - OFFSET_Y) / BOX_SIZE) as usize;
        let col = ((x - OFFSET_X) / BOX_SIZE) as usize;
        Some((row, col))
    }
}

/// What a click on the menu asks for, given whether there is a game to resume
/// and which of the buttons the click landed on: to resume where there is a
/// game and its button was hit, else a new game, else to leave, else nothing.
pub fn menu_click(has_current_game: bool, on_resume: bool, on_new_game: bool, on_exit: bool) -> (outcome:
    ScreenOutcome)
    ensures
        outcome == if has_current_game && on_resume {
            ScreenOutcome::Resume
        } else if on_new_game {
            ScreenOutcome::NewGame
        } else if on_exit {
            ScreenOutcome::Exit
        } else {
            ScreenOutcome::Unchanged
        },
{
    if has_current_game && on_resume {
        return ScreenOutcome::Resume;
    }
    if on_new_game {
        return ScreenOutcome::NewGame;
    } else if on_exit {
        return ScreenOutcome::Exit;
    }
    ScreenOutcome::Unchanged
}

impl Board {
    /// The board with nothing selected.
    pub open spec fn deselected(self) -> Board {
        Board { selected_index: None, selected_value: None, ..self }
    }

    /// The board with the cell of index `i` selected, shown with `value`.
    pub open spec fn selecting(self, i: int, value: u8) -> Board {
        Board { selected_index: Some(i), selected_value: Some(value), ..self }
    }

    /// The move that a click on the cell of row `r` and column `c` asks for:
    /// the selected value, where there is one and the cell is empty.
    pub open spec fn asked_move(self, r: int, c: int) -> Option<u8> {
        if self.cells[self.index(r, c)].value == 0 {
            self.selected_value
        } else {
            None
        }
    }

    /// The board after a click on the cell of row `r` and column `c`: the
    /// move that the click asks for is made where it is legal, and the cell
    /// is selected, shown with the value it held before.
    pub open spec fn clicked(self, r: int, c: int) -> Board {
        let at = self.index(r, c);
        let moved = match self.asked_move(r, c) {
            Some(value) => if self.move_error(r, c, value) is None {
                self.with_cell(at, Cell::played(value))
            } else {
                self
            },
            None => self,
        };
        moved.selecting(at, self.cells[at].value)
    }

    /// Why the move that a click on the cell of row `r` and column `c` asks
    /// for is refused, where it is.
    pub open spec fn click_error(self, r: int, c: int) -> Option<GameError> {
        match self.asked_move(r, c) {
            Some(value) => self.move_error(r, c, value),
            None => None,
        }
    }
}

impl Game {
    /// Takes a click of the left button at the pixel `(x, y)`.
    ///
    /// Outside the grid, a click takes the selection away; where no cell was
    /// selected, nothing changes and nothing is to be drawn. On a cell, a click first writes the
    /// selected value into the cell where the cell is empty and a value is
    /// selected, as [`Game::do_move`] does; then it selects the cell, shown
    /// with the value it held before. The error of a refused move is handed
    /// back for the host to show.
    pub fn click(&mut self, x: i32, y: i32) -> (outcome: (ScreenOutcome, Option<GameError>))
        requires
            old(self).wf(),
        ensures
            final(self).wf(),
            match cell_under_spec(x as int, y as int, old(self)@.side) {
                None => {
                    &&& outcome.1 is None
                    &&& if old(self)@.selected_index is Some {
                        final(self)@ == old(self)@.deselected() && outcome.0
                            == ScreenOutcome::Updated
                    } else {
                        final(self)@ == old(self)@ && outcome.0 == ScreenOutcome::Unchanged
                    }
                },
                Some((r, c)) => {
                    &&& final(self)@ == old(self)@.clicked(r, c)
                    &&& outcome.0 == ScreenOutcome::Updated
                    &&& outcome.1 == old(self)@.click_error(r, c)
                },
            },
    {
        proof {
            self@.lemma_sizes();
        }
        match cell_under(x, y, self.side_size) {
            None => {
                if self.selected_index.is_some() {
                    self.selected_index = None;
                    self.selected_value = None;
                    (ScreenOutcome::Updated, None)
                } else {
                    (ScreenOutcome::Unchanged, None)
                }
            },
            Some((row_index, col_index)) => {
                proof {
                    self@.lemma_cell_of(row_index as int, col_index as int);
                }
                let click_index = self.index(row_index, col_index);
                let click_value = self.grid[click_index].value;
                let mut refused: Option<GameError> = None;
                if click_value == 0 && self.selected_value.is_some() {
                    let value = self.selected_value.unwrap();
                    match self.do_move(row_index, col_index, value) {
                        Ok(_) => {},
                        Err(error) => {
                            refused = Some(error);
                        },
                    }
                }
                self.selected_index = Some(click_index);
                self.selected_value = Some(click_value);
                (ScreenOutcome::Updated, refused)
            },
        }
    }
}

} // verus!
