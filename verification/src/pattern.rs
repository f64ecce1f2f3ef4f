//! A grid of every size can be filled: the first row holds the values in
//! order, and each further row holds the row before it, shifted so that no
//! column and no block sees a value twice.

use crate::arith::lemma_index_in_range;
use crate::arith::lemma_index_of_pair;
use crate::arith::lemma_pair_of_index;
use crate::arith::lemma_same_remainder;
use crate::board::Board;
use crate::cell::Cell;
use vstd::prelude::*;

verus! {

impl Board {
    /// How far the row `r` is shifted against the first row: by `size` for
    /// each row within a block, and by one for each row of blocks.
    pub open spec fn shift_of_row(self, r: int) -> int {
        self.size * (r % self.size) + r / self.size
    }

    /// The value of the cell of index `i` in the shifted pattern.
    pub open spec fn shifted_value(self, i: int) -> int {
        (self.shift_of_row(self.row_of(i)) + self.col_of(i)) % self.side + 1
    }

    /// The board with every cell given its value of the shifted pattern.
    pub open spec fn shifted(self) -> Board {
        Board {
            cells: Seq::new(self.cells.len(), |i: int| Cell::given(self.shifted_value(i) as u8)),
            ..self
        }
    }

    /// The shifted pattern holds values of `1..=side`.
    pub proof fn lemma_shifted_value_in_range(self, i: int)
        requires
            self.wf(),
        ensures
            1 <= self.shifted_value(i) <= self.side,
    {
        self.lemma_sizes();
        let x = self.shift_of_row(self.row_of(i)) + self.col_of(i);
        assert(0 <= x % self.side < self.side) by (nonlinear_arith)
            requires
                0 < self.side,
        ;
    }

    /// The shifted pattern gives two related cells different values.
    pub proof fn lemma_shifted_values_differ(self, i: int, j: int)
        requires
            self.wf(),
            self.in_grid(i),
            self.in_grid(j),
            i != j,
            self.related(i, j),
        ensures
            self.shifted_value(i) != self.shifted_value(j),
    {
        let n = self.size;
        let s = self.side;
        self.lemma_sizes();
        self.lemma_position_of(i);
        self.lemma_position_of(j);
        let (r1, c1) = (self.row_of(i), self.col_of(i));
        let (r2, c2) = (self.row_of(j), self.col_of(j));
        lemma_index_of_pair(r1, n, n);
        lemma_index_of_pair(r2, n, n);
        lemma_index_of_pair(c1, n, n);
        lemma_index_of_pair(c2, n, n);
        let (a1, b1, d1, e1) = (r1 / n, r1 % n, c1 / n, c1 % n);
        let (a2, b2, d2, e2) = (r2 / n, r2 % n, c2 / n, c2 % n);
        let x = self.shift_of_row(r1) + c1;
        let y = self.shift_of_row(r2) + c2;
        assert(n * b1 == b1 * n && n * b2 == b2 * n) by (nonlinear_arith);
        // The shift of a row is below `side`, and no two rows share one.
        lemma_index_in_range(b1, a1, n, n);
        lemma_index_in_range(b2, a2, n, n);
        lemma_pair_of_index(b1, a1, n);
        lemma_pair_of_index(b2, a2, n);
        // So is the place of a cell within its block.
        lemma_index_in_range(b1, e1, n, n);
        lemma_index_in_range(b2, e2, n, n);
        lemma_pair_of_index(b1, e1, n);
        lemma_pair_of_index(b2, e2, n);
        if x % s == y % s {
            if r1 == r2 {
                lemma_same_remainder(x, y, s);
            } else if c1 == c2 {
                lemma_same_remainder(x, y, s);
            } else {
                assert(a1 == a2 && d1 == d2);
                assert(x - y == (b1 * n + e1) - (b2 * n + e2));
                lemma_same_remainder(x, y, s);
            }
            assert(false);
        }
    }

    /// Every well-formed board can be filled from its first cell on.
    pub proof fn lemma_fillable(self)
        requires
            self.wf(),
        ensures
            self.shifted().fills(self, 0),
            self.fillable(0),
    {
        let done = self.shifted();
        self.lemma_sizes();
        assert forall|j: int| 0 <= j < done.cells.len() implies #[trigger] done.fits_after_earlier(
            j,
        ) by {
            self.lemma_shifted_value_in_range(j);
            assert forall|i: int| 0 <= i < j && #[trigger] done.related(i, j) implies done.cells[i].value
                != done.cells[j].value by {
                self.lemma_shifted_value_in_range(i);
                self.lemma_shifted_values_differ(i, j);
            }
        }
    }
}

} // verus!
