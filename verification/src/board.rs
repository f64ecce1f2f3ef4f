//! The mathematical model of a game: a square grid of cells, its rows, columns
//! and blocks, and what it means for a value to be allowed in a cell and for
//! the grid to be complete.

use crate::cell::Cell;
use vstd::prelude::*;

verus! {

/// The model of a [`crate::game::Game`].
///
/// `cells` is the grid in row-major order: the cell of row `r` and column `c`
/// is `cells[r * side + c]`.
pub struct Board {
    /// The side of a block.
    pub size: int,
    /// The side of the grid, `size * size`.
    pub side: int,
    /// The cells, row after row.
    pub cells: Seq<Cell>,
    /// The index of the cell that the host has highlighted, if any.
    pub selected_index: Option<int>,
    /// The value that the host has highlighted, if any.
    pub selected_value: Option<u8>,
}

/// The largest block size whose values still fit in a byte.
pub open spec fn max_size() -> int {
    15
}

impl Board {
    /// The grid is square, made of `size * size` blocks of `size * size`
    /// cells, and holds no value above `side`.
    pub open spec fn wf(self) -> bool {
        &&& 1 <= self.size <= max_size()
        &&& self.side == self.size * self.size
        &&& self.cells.len() == self.side * self.side
        &&& forall|i: int| 0 <= i < self.cells.len() ==> (#[trigger] self.cells[i]).value <= self.side
    }

    /// The grid of block size `size` with every cell blank and nothing selected.
    pub open spec fn empty(size: int) -> Board {
        Board {
            size,
            side: size * size,
            cells: Seq::new((size * size * (size * size)) as nat, |i: int| Cell::blank()),
            selected_index: None,
            selected_value: None,
        }
    }

    /// `i` is the index of a cell.
    pub open spec fn in_grid(self, i: int) -> bool {
        0 <= i < self.cells.len()
    }

    /// The index of the cell of row `r` and column `c`.
    pub open spec fn index(self, r: int, c: int) -> int {
        r * self.side + c
    }

    /// The row of the cell of index `i`.
    pub open spec fn row_of(self, i: int) -> int {
        i / self.side
    }

    /// The column of the cell of index `i`.
    pub open spec fn col_of(self, i: int) -> int {
        i % self.side
    }

    /// The row of blocks that the cell of index `i` lies in.
    pub open spec fn block_row_of(self, i: int) -> int {
        self.row_of(i) / self.size
    }

    /// The column of blocks that the cell of index `i` lies in.
    pub open spec fn block_col_of(self, i: int) -> int {
        self.col_of(i) / self.size
    }

    /// The cells `i` and `j` share a row, a column or a block. Every cell is
    /// related to itself.
    pub open spec fn related(self, i: int, j: int) -> bool {
        ||| self.row_of(i) == self.row_of(j)
        ||| self.col_of(i) == self.col_of(j)
        ||| (self.block_row_of(i) == self.block_row_of(j) && self.block_col_of(i)
            == self.block_col_of(j))
    }

    /// The indices of row `r`, from left to right.
    pub open spec fn row_cells(self, r: int) -> Seq<int> {
        Seq::new(self.side as nat, |k: int| self.index(r, k))
    }

    /// The indices of column `c`, from top to bottom.
    pub open spec fn column_cells(self, c: int) -> Seq<int> {
        Seq::new(self.side as nat, |k: int| self.index(k, c))
    }

    /// The indices of the block in row `p` and column `q` of blocks, row after
    /// row.
    pub open spec fn block_cells(self, p: int, q: int) -> Seq<int> {
        Seq::new(
            self.side as nat,
            |k: int| self.index(p * self.size + k / self.size, q * self.size + k % self.size),
        )
    }

    /// The indices that constrain the cell of row `r` and column `c`: its
    /// column, then its row, then its block. A cell can occur more than once.
    pub open spec fn neighbor_cells(self, r: int, c: int) -> Seq<int> {
        self.column_cells(c) + self.row_cells(r) + self.block_cells(r / self.size, c / self.size)
    }

    /// Some cell related to `i` holds `v`.
    pub open spec fn taken(self, i: int, v: u8) -> bool {
        exists|j: int| self.in_grid(j) && #[trigger] self.related(i, j) && self.cells[j].value == v
    }

    /// The values that may go into the cell of index `i`: those of `1..=side`
    /// that no cell of its row, column or block holds.
    pub open spec fn candidates(self, i: int) -> Set<u8> {
        Set::new(|v: u8| values_up_to(self.side).contains(v) && !self.taken(i, v))
    }

    /// No cell is empty.
    pub open spec fn full(self) -> bool {
        forall|i: int| 0 <= i < self.cells.len() ==> (#[trigger] self.cells[i]).value != 0
    }

    /// One of the cells listed in `group` holds `v`.
    pub open spec fn group_holds(self, group: Seq<int>, v: int) -> bool {
        exists|k: int| 0 <= k < group.len() && self.cells[#[trigger] group[k]].value == v
    }

    /// Every value of `1..=side` is held by one of the cells listed in `group`.
    pub open spec fn group_complete(self, group: Seq<int>) -> bool {
        forall|v: int| 1 <= v <= self.side ==> #[trigger] self.group_holds(group, v)
    }

    /// The grid is complete: no cell is empty, and every row, every column and
    /// every block holds each value of `1..=side`.
    pub open spec fn complete(self) -> bool {
        &&& self.full()
        &&& forall|r: int| 0 <= r < self.side ==> self.group_complete(#[trigger] self.row_cells(r))
        &&& forall|c: int|
            0 <= c < self.side ==> self.group_complete(#[trigger] self.column_cells(c))
        &&& forall|p: int, q: int|
            0 <= p < self.size && 0 <= q < self.size ==> self.group_complete(
                #[trigger] self.block_cells(p, q),
            )
    }

    /// No two related cells hold the same value.
    pub open spec fn conflict_free(self) -> bool {
        forall|i: int, j: int|
            self.in_grid(i) && self.in_grid(j) && i != j && #[trigger] self.related(i, j)
                && self.cells[i].value != 0 ==> self.cells[i].value != self.cells[j].value
    }

    /// The indices below `n` of the cells that hold a value.
    pub open spec fn occupied_below(self, n: int) -> Set<int> {
        Set::new(|i: int| 0 <= i < n && self.in_grid(i) && self.cells[i].value != 0)
    }

    /// The indices below `n` of the cells that hold no value.
    pub open spec fn vacant_below(self, n: int) -> Set<int> {
        Set::new(|i: int| 0 <= i < n && self.in_grid(i) && self.cells[i].value == 0)
    }

    /// The indices of the cells that hold a value.
    pub open spec fn occupied(self) -> Set<int> {
        self.occupied_below(self.cells.len() as int)
    }

    /// The indices of the cells that hold no value.
    pub open spec fn vacant(self) -> Set<int> {
        self.vacant_below(self.cells.len() as int)
    }

    /// The two boards have the same sizes and hold the same values, cell by
    /// cell. Which values are givens, and what is selected, does not count.
    pub open spec fn same_values(self, other: Board) -> bool {
        &&& self.size == other.size
        &&& self.side == other.side
        &&& self.cells.len() == other.cells.len()
        &&& forall|i: int|
            0 <= i < self.cells.len() ==> (#[trigger] self.cells[i]).value == other.cells[i].value
    }

    /// The board with `cell` written at index `i`.
    pub open spec fn with_cell(self, i: int, cell: Cell) -> Board {
        Board { cells: self.cells.update(i, cell), ..self }
    }

    /// The board with every cell blank.
    pub open spec fn cleared(self) -> Board {
        Board { cells: Seq::new((self.side * self.side) as nat, |i: int| Cell::blank()), ..self }
    }
}

/// The values of `1..=n`.
pub open spec fn values_up_to(n: int) -> Set<u8> {
    Set::new(|v: u8| 1 <= v <= n)
}

/// The sequence `v` of machine integers lists the same indices as `s`.
pub open spec fn lists(v: Seq<usize>, s: Seq<int>) -> bool {
    &&& v.len() == s.len()
    &&& forall|k: int| 0 <= k < v.len() ==> #[trigger] v[k] == s[k]
}

/// The index `i` occurs in `v`.
pub open spec fn lists_index(v: Seq<usize>, i: int) -> bool {
    exists|k: int| 0 <= k < v.len() && #[trigger] v[k] == i
}

/// The indices in `v` grow from each one to the next.
pub open spec fn increasing(v: Seq<usize>) -> bool {
    forall|k: int, l: int| 0 <= k < l < v.len() ==> v[k] < v[l]
}

} // verus!
