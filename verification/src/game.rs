//! The game: the grid as the machine holds it, its counts and index
//! arithmetic, and the rows, columns and blocks of its cells.

pub use crate::cell::Cell;

use crate::board::increasing;
use crate::board::lists;
use crate::board::lists_index;
use crate::board::Board;
use vstd::prelude::*;

verus! {

/// A grid of `side_size * side_size` cells in row-major order, made of blocks
/// of `size * size` cells, with the selection that the host highlights.
pub struct Game {
    /// The side of a block.
    pub size: usize,
    /// The side of the grid.
    pub side_size: usize,
    /// The index of the selected cell, if any.
    pub selected_index: Option<usize>,
    /// The selected value, if any.
    pub selected_value: Option<u8>,
    /// The cells, row after row.
    pub grid: Vec<Cell>,
}

impl View for Game {
    type V = Board;

    open spec fn view(&self) -> Board {
        Board {
            size: self.size as int,
            side: self.side_size as int,
            cells: self.grid@,
            selected_index: match self.selected_index {
                Some(i) => Some(i as int),
                None => None,
            },
            selected_value: self.selected_value,
        }
    }
}

impl Game {
    /// The game's sizes fit together: see [`Board::wf`].
    pub open spec fn wf(&self) -> bool {
        self@.wf()
    }

    /// Whether the game's sizes fit together, for a host that has written to
    /// the fields: the block size is between 1 and 15, the side is its
    /// square, the grid has the side's square of cells, and no cell holds a
    /// value above the side.
    pub fn is_valid(&self) -> (valid: bool)
        ensures
            valid == self.wf(),
    {
        if self.size < 1 || self.size > 15 {
            return false;
        }
        assert(self.size * self.size <= 225) by (nonlinear_arith)
            requires
                1 <= self.size <= 15,
        ;
        if self.side_size != self.size * self.size {
            return false;
        }
        assert(self.side_size * self.side_size <= 50625) by (nonlinear_arith)
            requires
                self.side_size <= 225,
        ;
        if self.grid.len() != self.side_size * self.side_size {
            return false;
        }
        let mut i: usize = 0;
        while i < self.grid.len()
            invariant
                i <= self.grid.len(),
                self.side_size <= 225,
                forall|j: int| 0 <= j < i ==> (#[trigger] self@.cells[j]).value <= self@.side,
            decreases self.grid.len() - i,
        {
            if self.grid[i].value as usize > self.side_size {
                assert(self@.cells[i as int].value > self@.side);
                return false;
            }
            i += 1;
        }
        true
    }

    /// A game of block size `size` with every cell blank and nothing selected.
    pub fn new(size: usize) -> (game: Game)
        requires
            1 <= size <= 15,
        ensures
            game.wf(),
            game@ == Board::empty(size as int),
    {
        assert(size * size <= 225 && size * size * (size * size) <= 50625) by (nonlinear_arith)
            requires
                1 <= size <= 15,
        ;
        let side_size = size * size;
        let game = Game {
            size,
            side_size,
            selected_index: None,
            selected_value: None,
            grid: vec![Cell { value: 0, initial: false }; side_size * side_size],
        };
        assert(game@.cells =~= Board::empty(size as int).cells);
        game
    }

    /// Makes every cell blank again. The sizes and the selection stay.
    pub fn clear(&mut self)
        requires
            old(self).side_size * old(self).side_size <= usize::MAX,
        ensures
            final(self)@ == old(self)@.cleared(),
    {
        self.grid = vec![Cell { value: 0, initial: false }; self.side_size * self.side_size];
        assert(self@.cells =~= old(self)@.cleared().cells);
    }

    /// The number of cells that hold no value.
    pub fn nb_empty(&self) -> (count: usize)
        ensures
            count == self@.vacant().len(),
    {
        let mut count: usize = 0;
        let mut i: usize = 0;
        proof {
            self@.lemma_vacant_below(0);
        }
        while i < self.grid.len()
            invariant
                i <= self.grid.len(),
                count == self@.vacant_below(i as int).len(),
                count <= i,
            decreases self.grid.len() - i,
        {
            proof {
                self@.lemma_vacant_below(i as int);
            }
            if self.grid[i] == 0u8 {
                count += 1;
            }
            i += 1;
        }
        count
    }

    /// The number of cells that hold a value.
    pub fn nb_non_empty(&self) -> (count: usize)
        ensures
            count == self@.occupied().len(),
    {
        let mut count: usize = 0;
        let mut i: usize = 0;
        proof {
            self@.lemma_occupied_below(0);
        }
        while i < self.grid.len()
            invariant
                i <= self.grid.len(),
                count == self@.occupied_below(i as int).len(),
                count <= i,
            decreases self.grid.len() - i,
        {
            proof {
                self@.lemma_occupied_below(i as int);
            }
            if self.grid[i] != 0u8 {
                count += 1;
            }
            i += 1;
        }
        count
    }

    /// The indices of the cells that hold no value, in increasing order.
    pub fn _empties(&self) -> (found: Vec<usize>)
        ensures
            increasing(found@),
            forall|i: int| #[trigger] lists_index(found@, i) <==> self@.vacant().contains(i),
    {
        let mut found: Vec<usize> = Vec::new();
        let mut i: usize = 0;
        while i < self.grid.len()
            invariant
                i <= self.grid.len(),
                increasing(found@),
                forall|k: int| 0 <= k < found@.len() ==> #[trigger] found@[k] < i,
                forall|j: int| #[trigger]
                    lists_index(found@, j) <==> self@.vacant_below(i as int).contains(j),
            decreases self.grid.len() - i,
        {
            let ghost before = found@;
            if self.grid[i].value == 0 {
                found.push(i);
            }
            proof {
                let next = self@.vacant_below(i + 1);
                assert forall|j: int| #[trigger] lists_index(found@, j) <==> next.contains(j) by {
                    if lists_index(found@, j) {
                        let k = choose|k: int| 0 <= k < found@.len() && #[trigger] found@[k] == j;
                        if k < before.len() {
                            assert(before[k] == j);
                            assert(lists_index(before, j));
                        }
                    }
                    if next.contains(j) {
                        if j < i {
                            assert(lists_index(before, j));
                            let k = choose|k: int| 0 <= k < before.len() && #[trigger] before[k] == j;
                            assert(found@[k] == j);
                        } else {
                            assert(found@[before.len() as int] == j);
                        }
                    }
                }
            }
            i += 1;
        }
        found
    }

    /// The row and the column of the cell of index `index`.
    pub fn coordinates(&self, index: usize) -> (position: (usize, usize))
        requires
            self.side_size > 0,
        ensures
            position.0 == self@.row_of(index as int),
            position.1 == self@.col_of(index as int),
    {
        (index / self.side_size, index % self.side_size)
    }

    /// The index of the cell of row `r` and column `c`.
    pub fn index(&self, r: usize, c: usize) -> (index: usize)
        requires
            self@.index(r as int, c as int) <= usize::MAX,
        ensures
            index == self@.index(r as int, c as int),
    {
        assert(r * self.side_size >= 0) by (nonlinear_arith);
        r * self.side_size + c
    }

    /// The indices of the cells of column `c`, from top to bottom.
    pub fn column(&self, c: usize) -> (cells: Vec<usize>)
        requires
            self.wf(),
            c < self.side_size,
        ensures
            lists(cells@, self@.column_cells(c as int)),
    {
        let mut cells: Vec<usize> = Vec::new();
        let mut x: usize = 0;
        while x < self.side_size
            invariant
                self.wf(),
                c < self.side_size,
                x <= self.side_size,
                cells@.len() == x,
                forall|k: int| 0 <= k < x ==> #[trigger] cells@[k] == self@.column_cells(c as int)[k],
            decreases self.side_size - x,
        {
            proof {
                self@.lemma_cell_of(x as int, c as int);
                self@.lemma_sizes();
            }
            cells.push(self.index(x, c));
            x += 1;
        }
        cells
    }

    /// The indices of the cells of row `r`, from left to right.
    pub fn row(&self, r: usize) -> (cells: Vec<usize>)
        requires
            self.wf(),
            r < self.side_size,
        ensures
            lists(cells@, self@.row_cells(r as int)),
    {
        let mut cells: Vec<usize> = Vec::new();
        let mut x: usize = 0;
        while x < self.side_size
            invariant
                self.wf(),
                r < self.side_size,
                x <= self.side_size,
                cells@.len() == x,
                forall|k: int| 0 <= k < x ==> #[trigger] cells@[k] == self@.row_cells(r as int)[k],
            decreases self.side_size - x,
        {
            proof {
                self@.lemma_cell_of(r as int, x as int);
                self@.lemma_sizes();
            }
            cells.push(self.index(r, x));
            x += 1;
        }
        cells
    }

    /// The indices of the cells of the block that holds the cell of row `r`
    /// and column `c`, row after row.
    pub fn group(&self, r: usize, c: usize) -> (cells: Vec<usize>)
        requires
            self.wf(),
            r < self.side_size,
            c < self.side_size,
        ensures
            lists(
                cells@,
                self@.block_cells(r as int / self.size as int, c as int / self.size as int),
            ),
    {
        let ghost p = r as int / self.size as int;
        let ghost q = c as int / self.size as int;
        proof {
            self@.lemma_sizes();
            crate::arith::lemma_index_of_pair(r as int, self.size as int, self.size as int);
            crate::arith::lemma_index_of_pair(c as int, self.size as int, self.size as int);
            crate::arith::lemma_index_in_range(p, 0, self.size as int, self.size as int);
            crate::arith::lemma_index_in_range(q, 0, self.size as int, self.size as int);
        }
        let start_row = (r / self.size) * self.size;
        let start_col = (c / self.size) * self.size;
        let mut cells: Vec<usize> = Vec::new();
        let mut a: usize = 0;
        while a < self.size
            invariant
                self.wf(),
                0 <= p < self.size,
                0 <= q < self.size,
                start_row == p * self.size,
                start_col == q * self.size,
                a <= self.size,
                cells@.len() == a * self.size,
                forall|k: int| 0 <= k < cells@.len() ==> #[trigger] cells@[k] == self@.block_cells(p, q)[k],
            decreases self.size - a,
        {
            let mut b: usize = 0;
            while b < self.size
                invariant
                    self.wf(),
                    0 <= p < self.size,
                    0 <= q < self.size,
                    start_row == p * self.size,
                    start_col == q * self.size,
                    a < self.size,
                    b <= self.size,
                    cells@.len() == a * self.size + b,
                    forall|k: int| 0 <= k < cells@.len() ==> #[trigger] cells@[k] == self@.block_cells(p, q)[k],
                decreases self.size - b,
            {
                proof {
                    let n = self.size as int;
                    let k = a * n + b;
                    crate::arith::lemma_index_in_range(a as int, b as int, n, n);
                    crate::arith::lemma_pair_of_index(a as int, b as int, n);
                    self@.lemma_block_cell(p, q, k);
                    self@.lemma_sizes();
                    crate::arith::lemma_index_in_range(p, a as int, n, n);
                    crate::arith::lemma_index_in_range(q, b as int, n, n);
                }
                cells.push(self.index(start_row + a, start_col + b));
                b += 1;
            }
            proof {
                assert(a * self.size + self.size == (a + 1) * self.size) by (nonlinear_arith);
            }
            a += 1;
        }
        cells
    }

    /// The indices that constrain the cell of row `r` and column `c`: its
    /// column, then its row, then its block.
    pub fn neighbors(&self, r: usize, c: usize) -> (cells: Vec<usize>)
        requires
            self.wf(),
            r < self.side_size,
            c < self.side_size,
        ensures
            lists(cells@, self@.neighbor_cells(r as int, c as int)),
    {
        let mut cells = self.column(c);
        let mut row = self.row(r);
        let mut block = self.group(r, c);
        cells.append(&mut row);
        cells.append(&mut block);
        cells
    }
}

} // verus!
