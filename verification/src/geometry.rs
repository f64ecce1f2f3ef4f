//! How indices, rows, columns and blocks of a [`Board`] fit together.

use crate::arith::lemma_index_in_range;
use crate::arith::lemma_index_of_pair;
use crate::arith::lemma_pair_of_index;
use crate::board::Board;
use vstd::prelude::*;

verus! {

impl Board {
    /// A well-formed board has at least one cell, and as many as `side * side`.
    pub proof fn lemma_sizes(self)
        requires
            self.wf(),
        ensures
            1 <= self.size <= self.side <= 225,
            self.side <= self.cells.len() <= 50625,
            self.cells.len() == self.side * self.side,
    {
        let n = self.size;
        assert(n <= n * n <= 225) by (nonlinear_arith)
            requires
                1 <= n <= 15,
        ;
        let s = self.side;
        assert(s <= s * s <= 50625) by (nonlinear_arith)
            requires
                1 <= s <= 225,
        ;
    }

    /// The cell of row `r` and column `c` lies in the grid, in that row and
    /// that column.
    pub proof fn lemma_cell_of(self, r: int, c: int)
        requires
            self.wf(),
            0 <= r < self.side,
            0 <= c < self.side,
        ensures
            self.in_grid(self.index(r, c)),
            self.row_of(self.index(r, c)) == r,
            self.col_of(self.index(r, c)) == c,
    {
        lemma_index_in_range(r, c, self.side, self.side);
        lemma_pair_of_index(r, c, self.side);
    }

    /// A cell of the grid has a row and a column below `side`, from which its
    /// index comes back, and a row and a column of blocks below `size`.
    pub proof fn lemma_position_of(self, i: int)
        requires
            self.wf(),
            self.in_grid(i),
        ensures
            0 <= self.row_of(i) < self.side,
            0 <= self.col_of(i) < self.side,
            self.index(self.row_of(i), self.col_of(i)) == i,
            0 <= self.block_row_of(i) < self.size,
            0 <= self.block_col_of(i) < self.size,
    {
        self.lemma_sizes();
        lemma_index_of_pair(i, self.side, self.side);
        lemma_index_of_pair(self.row_of(i), self.size, self.size);
        lemma_index_of_pair(self.col_of(i), self.size, self.size);
    }

    /// The `k`-th cell of the block `(p, q)` lies in the grid, in row
    /// `p * size + k / size`, in column `q * size + k % size` and in that block.
    pub proof fn lemma_block_cell(self, p: int, q: int, k: int)
        requires
            self.wf(),
            0 <= p < self.size,
            0 <= q < self.size,
            0 <= k < self.side,
        ensures
            self.in_grid(self.block_cells(p, q)[k]),
            self.row_of(self.block_cells(p, q)[k]) == p * self.size + k / self.size,
            self.col_of(self.block_cells(p, q)[k]) == q * self.size + k % self.size,
            self.block_row_of(self.block_cells(p, q)[k]) == p,
            self.block_col_of(self.block_cells(p, q)[k]) == q,
            0 <= k / self.size < self.size,
            0 <= k % self.size < self.size,
    {
        let n = self.size;
        lemma_index_of_pair(k, n, n);
        let r = p * n + k / n;
        let c = q * n + k % n;
        lemma_index_in_range(p, k / n, n, n);
        lemma_index_in_range(q, k % n, n, n);
        lemma_pair_of_index(p, k / n, n);
        lemma_pair_of_index(q, k % n, n);
        self.lemma_cell_of(r, c);
    }

    /// Every cell is one of the cells of its own block.
    pub proof fn lemma_cell_in_block(self, i: int) -> (k: int)
        requires
            self.wf(),
            self.in_grid(i),
        ensures
            0 <= k < self.side,
            self.block_cells(self.block_row_of(i), self.block_col_of(i))[k] == i,
    {
        let n = self.size;
        let r = self.row_of(i);
        let c = self.col_of(i);
        self.lemma_position_of(i);
        lemma_index_of_pair(r, n, n);
        lemma_index_of_pair(c, n, n);
        let k = (r % n) * n + c % n;
        lemma_index_in_range(r % n, c % n, n, n);
        lemma_pair_of_index(r % n, c % n, n);
        k
    }

    /// Each neighbor of a cell lies in the grid and is related to the cell.
    pub proof fn lemma_neighbor_is_related(self, i: int, k: int)
        requires
            self.wf(),
            self.in_grid(i),
            0 <= k < 3 * self.side,
        ensures
            self.neighbor_cells(self.row_of(i), self.col_of(i)).len() == 3 * self.side,
            self.in_grid(self.neighbor_cells(self.row_of(i), self.col_of(i))[k]),
            self.related(i, self.neighbor_cells(self.row_of(i), self.col_of(i))[k]),
    {
        let r = self.row_of(i);
        let c = self.col_of(i);
        let s = self.side;
        self.lemma_position_of(i);
        if k < s {
            self.lemma_cell_of(k, c);
        } else if k < 2 * s {
            self.lemma_cell_of(r, k - s);
        } else {
            self.lemma_block_cell(r / self.size, c / self.size, k - 2 * s);
        }
    }

    /// Each cell related to a cell is one of its neighbors.
    pub proof fn lemma_related_is_neighbor(self, i: int, j: int) -> (k: int)
        requires
            self.wf(),
            self.in_grid(i),
            self.in_grid(j),
            self.related(i, j),
        ensures
            0 <= k < 3 * self.side,
            self.neighbor_cells(self.row_of(i), self.col_of(i))[k] == j,
    {
        let r = self.row_of(i);
        let c = self.col_of(i);
        let s = self.side;
        self.lemma_position_of(i);
        self.lemma_position_of(j);
        if self.col_of(j) == c {
            self.row_of(j)
        } else if self.row_of(j) == r {
            s + self.col_of(j)
        } else {
            let k = self.lemma_cell_in_block(j);
            2 * s + k
        }
    }

    /// Being related goes both ways, and every cell is related to itself.
    pub proof fn lemma_related_symmetric(self, i: int, j: int)
        ensures
            self.related(i, j) == self.related(j, i),
            self.related(i, i),
    {
    }
}

} // verus!
