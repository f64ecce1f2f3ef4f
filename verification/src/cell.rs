//! One cell of the grid.

use vstd::prelude::*;

verus! {

/// A cell holds a value, `0` when it is empty, and remembers whether the value
/// is one of the puzzle's givens.
#[derive(Clone, Copy, Debug)]
pub struct Cell {
    pub value: u8,
    pub initial: bool,
}

impl Cell {
    /// The empty cell that a player may fill.
    pub open spec fn blank() -> Cell {
        Cell { value: 0, initial: false }
    }

    /// A cell that holds `value` as one of the puzzle's givens.
    pub open spec fn given(value: u8) -> Cell {
        Cell { value, initial: true }
    }

    /// A cell that holds `value` as entered by the player.
    pub open spec fn played(value: u8) -> Cell {
        Cell { value, initial: false }
    }
}

/// Two cells compare equal when they hold the same value: whether the value is
/// a given does not count.
impl PartialEq for Cell {
    fn eq(&self, other: &Cell) -> (same: bool) {
        self.value == other.value
    }
}

impl vstd::std_specs::cmp::PartialEqSpecImpl for Cell {
    open spec fn obeys_eq_spec() -> bool {
        true
    }

    open spec fn eq_spec(&self, other: &Cell) -> bool {
        self.value == other.value
    }
}

/// A cell compares equal to a number when it holds that number.
impl PartialEq<u8> for Cell {
    fn eq(&self, other: &u8) -> (same: bool) {
        self.value == *other
    }
}

impl vstd::std_specs::cmp::PartialEqSpecImpl<u8> for Cell {
    open spec fn obeys_eq_spec() -> bool {
        true
    }

    open spec fn eq_spec(&self, other: &u8) -> bool {
        self.value == *other
    }
}

} // verus!
