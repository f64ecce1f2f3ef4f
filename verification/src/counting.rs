//! How many cells of a [`Board`] hold a value, and how many hold none.

use crate::board::values_up_to;
use crate::board::Board;
use crate::cell::Cell;
use vstd::prelude::*;

verus! {

/// There are `n` values in `1..=n`, as long as they are bytes.
pub proof fn lemma_values_up_to(n: int)
    requires
        0 <= n <= 255,
    ensures
        values_up_to(n).finite(),
        values_up_to(n).len() == n,
    decreases n,
{
    if n == 0 {
        assert(values_up_to(0) =~= Set::<u8>::empty());
    } else {
        lemma_values_up_to(n - 1);
        assert(values_up_to(n) =~= values_up_to(n - 1).insert(n as u8));
    }
}

impl Board {
    /// The cells below `n` that hold a value are finitely many, at most `n`.
    pub proof fn lemma_occupied_below(self, n: int)
        requires
            0 <= n <= self.cells.len(),
        ensures
            self.occupied_below(n).finite(),
            self.occupied_below(n).len() <= n,
            n < self.cells.len() ==> self.occupied_below(n + 1) == if self.cells[n].value != 0 {
                self.occupied_below(n).insert(n)
            } else {
                self.occupied_below(n)
            },
            n < self.cells.len() ==> !self.occupied_below(n).contains(n),
        decreases n,
    {
        if n == 0 {
            assert(self.occupied_below(0) =~= Set::<int>::empty());
        } else {
            self.lemma_occupied_below(n - 1);
            if self.cells[n - 1].value != 0 {
                assert(self.occupied_below(n) =~= self.occupied_below(n - 1).insert(n - 1));
            } else {
                assert(self.occupied_below(n) =~= self.occupied_below(n - 1));
            }
        }
        if n < self.cells.len() {
            if self.cells[n].value != 0 {
                assert(self.occupied_below(n + 1) =~= self.occupied_below(n).insert(n));
            } else {
                assert(self.occupied_below(n + 1) =~= self.occupied_below(n));
            }
        }
    }

    /// The cells below `n` that hold no value are finitely many, at most `n`.
    pub proof fn lemma_vacant_below(self, n: int)
        requires
            0 <= n <= self.cells.len(),
        ensures
            self.vacant_below(n).finite(),
            self.vacant_below(n).len() <= n,
            n < self.cells.len() ==> self.vacant_below(n + 1) == if self.cells[n].value == 0 {
                self.vacant_below(n).insert(n)
            } else {
                self.vacant_below(n)
            },
            n < self.cells.len() ==> !self.vacant_below(n).contains(n),
        decreases n,
    {
        if n == 0 {
            assert(self.vacant_below(0) =~= Set::<int>::empty());
        } else {
            self.lemma_vacant_below(n - 1);
            if self.cells[n - 1].value == 0 {
                assert(self.vacant_below(n) =~= self.vacant_below(n - 1).insert(n - 1));
            } else {
                assert(self.vacant_below(n) =~= self.vacant_below(n - 1));
            }
        }
        if n < self.cells.len() {
            if self.cells[n].value == 0 {
                assert(self.vacant_below(n + 1) =~= self.vacant_below(n).insert(n));
            } else {
                assert(self.vacant_below(n + 1) =~= self.vacant_below(n));
            }
        }
    }

    /// Every cell below `n` either holds a value or holds none.
    pub proof fn lemma_counts_add_up(self, n: int)
        requires
            0 <= n <= self.cells.len(),
        ensures
            self.occupied_below(n).len() + self.vacant_below(n).len() == n,
        decreases n,
    {
        self.lemma_occupied_below(n);
        self.lemma_vacant_below(n);
        if n > 0 {
            self.lemma_counts_add_up(n - 1);
            self.lemma_occupied_below(n - 1);
            self.lemma_vacant_below(n - 1);
        }
    }

    /// Writing a value into a cell, or taking its value away, changes the
    /// counts by one; writing over a cell of the same kind leaves them.
    pub proof fn lemma_counts_after_write(self, i: int, cell: Cell)
        requires
            self.in_grid(i),
        ensures
            self.with_cell(i, cell).occupied() == if cell.value != 0 {
                self.occupied().insert(i)
            } else {
                self.occupied().remove(i)
            },
            self.with_cell(i, cell).vacant() == if cell.value == 0 {
                self.vacant().insert(i)
            } else {
                self.vacant().remove(i)
            },
            self.occupied().finite(),
            self.vacant().finite(),
            self.occupied().contains(i) == (self.cells[i].value != 0),
            self.vacant().contains(i) == (self.cells[i].value == 0),
    {
        let after = self.with_cell(i, cell);
        self.lemma_occupied_below(self.cells.len() as int);
        self.lemma_vacant_below(self.cells.len() as int);
        if cell.value != 0 {
            assert(after.occupied() =~= self.occupied().insert(i));
            assert(after.vacant() =~= self.vacant().remove(i));
        } else {
            assert(after.occupied() =~= self.occupied().remove(i));
            assert(after.vacant() =~= self.vacant().insert(i));
        }
    }

    /// On a board without an empty cell, every cell counts as occupied.
    pub proof fn lemma_full_count(self)
        requires
            self.full(),
        ensures
            self.occupied().len() == self.cells.len(),
    {
        let n = self.cells.len() as int;
        self.lemma_counts_add_up(n);
        self.lemma_vacant_below(n);
        assert(self.vacant_below(n) =~= Set::<int>::empty());
    }
}

} // verus!
