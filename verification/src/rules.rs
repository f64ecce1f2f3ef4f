//! The constraints at work: which values a cell may take, whether the grid is
//! complete, and the move a player makes.

use crate::board::lists;
use crate::board::Board;
use crate::cell::Cell;
use crate::errors::GameError;
use crate::game::Game;
use std::collections::HashSet;
use vstd::prelude::*;
use vstd::std_specs::iter::IteratorSpec;

verus! {

impl Board {
    /// The values of `1..=side` that none of the first `k` cells listed in
    /// `group` holds.
    pub open spec fn left_after(self, group: Seq<int>, k: int) -> Set<u8> {
        Set::new(
            |v: u8|
                1 <= v <= self.side && forall|m: int|
                    0 <= m < k ==> self.cells[#[trigger] group[m]].value != v,
        )
    }

    /// The candidates of a cell are the values that are left after all its
    /// neighbors, and they are among the values left after any of them.
    pub proof fn lemma_candidates_left(self, i: int, k: int)
        requires
            self.wf(),
            self.in_grid(i),
            0 <= k <= 3 * self.side,
        ensures
            self.candidates(i).subset_of(
                self.left_after(self.neighbor_cells(self.row_of(i), self.col_of(i)), k),
            ),
            k == 3 * self.side ==> self.candidates(i) == self.left_after(
                self.neighbor_cells(self.row_of(i), self.col_of(i)),
                k,
            ),
    {
        let around = self.neighbor_cells(self.row_of(i), self.col_of(i));
        let left = self.left_after(around, k);
        assert forall|v: u8| self.candidates(i).contains(v) implies left.contains(v) by {
            assert forall|m: int| 0 <= m < k implies self.cells[#[trigger] around[m]].value
                != v by {
                self.lemma_neighbor_is_related(i, m);
            }
        }
        if k == 3 * self.side {
            assert forall|v: u8| left.contains(v) implies self.candidates(i).contains(v) by {
                if self.taken(i, v) {
                    let j = choose|j: int|
                        self.in_grid(j) && #[trigger] self.related(i, j) && self.cells[j].value
                            == v;
                    let m = self.lemma_related_is_neighbor(i, j);
                    assert(self.cells[around[m]].value == v);
                }
            }
            assert(self.candidates(i) =~= left);
        }
    }

    /// What stands in the way of writing `value` at row `r` and column `c`,
    /// if anything: the position, then the value, then the cell, then the
    /// cell's neighbors.
    pub open spec fn move_error(self, r: int, c: int, value: u8) -> Option<GameError> {
        if r >= self.side || c >= self.side {
            Some(GameError::IllegalPosition)
        } else if value == 0 || value > self.side {
            Some(GameError::IllegalValue)
        } else if self.cells[self.index(r, c)].value != 0 {
            Some(GameError::NonEmptyCell)
        } else if !self.candidates(self.index(r, c)).contains(value) {
            Some(GameError::InvalidValue)
        } else {
            None
        }
    }
}

/// Whether `x` occurs in `values`.
fn holds_value(values: &Vec<u8>, x: u8) -> (found: bool)
    ensures
        found == values@.contains(x),
{
    let mut k: usize = 0;
    while k < values.len()
        invariant
            k <= values.len(),
            forall|m: int| 0 <= m < k ==> values@[m] != x,
        decreases values.len() - k,
    {
        if values[k] == x {
            return true;
        }
        k += 1;
    }
    false
}

impl Game {
    /// The values that may go into the cell of index `index`: each value of
    /// `1..=side_size` that no cell of its row, column or block holds, once
    /// each, in no particular order.
    pub fn valids(&self, index: usize) -> (values: Vec<u8>)
        requires
            self.wf(),
            index < self.grid@.len(),
        ensures
            values@.no_duplicates(),
            values@.to_set() == self@.candidates(index as int),
    {
        broadcast use vstd::std_specs::hash::group_hash_axioms;

        proof {
            self@.lemma_sizes();
            self@.lemma_position_of(index as int);
        }
        let (r, c) = self.coordinates(index);
        let ghost around = self@.neighbor_cells(r as int, c as int);

        let mut possibles: HashSet<u8> = HashSet::new();
        let mut value: u8 = 0;
        while (value as usize) < self.side_size
            invariant
                self.side_size <= 225,
                value <= self.side_size,
                possibles@ == Set::new(|v: u8| 1 <= v <= value),
            decreases self.side_size - value,
        {
            value += 1;
            possibles.insert(value);
            assert(possibles@ =~= Set::new(|v: u8| 1 <= v <= value));
        }
        assert(possibles@ =~= self@.left_after(around, 0));

        let used = self.neighbors(r, c);
        let mut k: usize = 0;
        proof {
            self@.lemma_candidates_left(index as int, 0);
        }
        while k < used.len()
            invariant
                self.wf(),
                index < self.grid@.len(),
                around == self@.neighbor_cells(self@.row_of(index as int), self@.col_of(index as int)),
                lists(used@, around),
                used@.len() == 3 * self.side_size,
                k <= used.len(),
                possibles@ == self@.left_after(around, k as int),
                k == used.len() ==> possibles@ == self@.candidates(index as int),
                self@.candidates(index as int).subset_of(possibles@),
            ensures
                possibles@ == self@.candidates(index as int),
            decreases used.len() - k,
        {
            proof {
                self@.lemma_neighbor_is_related(index as int, k as int);
            }
            let taken = self.grid[used[k]].value;
            possibles.remove(&taken);
            assert(possibles@ =~= self@.left_after(around, k + 1)) by {
                assert forall|v: u8| self@.left_after(around, k + 1).contains(v) implies possibles@.contains(
                    v,
                ) by {
                    assert(self@.cells[around[k as int]].value != v);
                    assert(self@.left_after(around, k as int).contains(v));
                }
            }
            k += 1;
            proof {
                self@.lemma_candidates_left(index as int, k as int);
            }
            if possibles.is_empty() {
                assert(possibles@ =~= self@.candidates(index as int));
                break ;
            }
        }

        let mut values: Vec<u8> = Vec::new();
        let ghost keys: Seq<u8> = possibles.iter().remaining().unref();
        assert(keys.to_set() == possibles@);
        assert(keys.no_duplicates()) by {
            assert forall|i: int, j: int|
                0 <= i < keys.len() && 0 <= j < keys.len() && i != j implies keys[i] != keys[j] by {
                assert(possibles.iter().remaining()[i] != possibles.iter().remaining()[j]);
            }
        }
        for x in it: possibles.iter()
            invariant
                it.seq().unref() == keys,
                values@ == keys.take(it.index()),
        {
            assert(keys.take(it.index() + 1) =~= keys.take(it.index()).push(*x));
            values.push(*x);
        }
        assert(keys.take(keys.len() as int) =~= keys);
        values
    }

    /// Whether one of the cells listed in `cells` holds `v`.
    fn group_holds(&self, cells: &Vec<usize>, v: u8, Ghost(group): Ghost<Seq<int>>) -> (found:
        bool)
        requires
            lists(cells@, group),
            forall|k: int| 0 <= k < group.len() ==> 0 <= #[trigger] group[k] < self.grid@.len(),
        ensures
            found == self@.group_holds(group, v as int),
    {
        let mut k: usize = 0;
        while k < cells.len()
            invariant
                lists(cells@, group),
                forall|m: int| 0 <= m < group.len() ==> 0 <= #[trigger] group[m] < self.grid@.len(),
                k <= cells.len(),
                forall|m: int| 0 <= m < k ==> self@.cells[#[trigger] group[m]].value != v,
            decreases cells.len() - k,
        {
            assert(cells@[k as int] == group[k as int]);
            if self.grid[cells[k]].value == v {
                return true;
            }
            k += 1;
        }
        false
    }

    /// Whether the cells listed in `cells` hold every value of `1..=side_size`.
    fn group_complete(&self, cells: &Vec<usize>, Ghost(group): Ghost<Seq<int>>) -> (all: bool)
        requires
            self.side_size <= 225,
            lists(cells@, group),
            forall|k: int| 0 <= k < group.len() ==> 0 <= #[trigger] group[k] < self.grid@.len(),
        ensures
            all == self@.group_complete(group),
    {
        let mut v: u8 = 0;
        while (v as usize) < self.side_size
            invariant
                self.side_size <= 225,
                lists(cells@, group),
                forall|k: int| 0 <= k < group.len() ==> 0 <= #[trigger] group[k] < self.grid@.len(),
                v <= self.side_size,
                forall|w: int| 1 <= w <= v ==> #[trigger] self@.group_holds(group, w),
            decreases self.side_size - v,
        {
            v += 1;
            if !self.group_holds(cells, v, Ghost(group)) {
                return false;
            }
        }
        true
    }

    /// Whether the grid is complete: no cell is empty, and every row, every
    /// column and every block holds each value of `1..=side_size`.
    pub fn is_done(&self) -> (done: bool)
        requires
            self.wf(),
        ensures
            done == self@.complete(),
    {
        proof {
            self@.lemma_sizes();
        }
        let mut i: usize = 0;
        while i < self.grid.len()
            invariant
                i <= self.grid.len(),
                forall|j: int| 0 <= j < i ==> (#[trigger] self@.cells[j]).value != 0,
            decreases self.grid.len() - i,
        {
            if self.grid[i].value == 0 {
                assert(self@.cells[i as int].value == 0);
                return false;
            }
            i += 1;
        }

        let mut row: usize = 0;
        while row < self.side_size
            invariant
                self.wf(),
                self.side_size <= 225,
                row <= self.side_size,
                forall|r: int| 0 <= r < row ==> self@.group_complete(#[trigger] self@.row_cells(r)),
            decreases self.side_size - row,
        {
            let cells = self.row(row);
            proof {
                assert forall|k: int| 0 <= k < self.side_size implies 0 <= #[trigger] self@.row_cells(
                    row as int,
                )[k] < self.grid@.len() by {
                    self@.lemma_cell_of(row as int, k);
                }
            }
            if !self.group_complete(&cells, Ghost(self@.row_cells(row as int))) {
                return false;
            }
            row += 1;
        }

        let mut col: usize = 0;
        while col < self.side_size
            invariant
                self.wf(),
                self.side_size <= 225,
                col <= self.side_size,
                forall|c: int|
                    0 <= c < col ==> self@.group_complete(#[trigger] self@.column_cells(c)),
            decreases self.side_size - col,
        {
            let cells = self.column(col);
            proof {
                assert forall|k: int| 0 <= k < self.side_size implies 0 <= #[trigger] self@.column_cells(
                    col as int,
                )[k] < self.grid@.len() by {
                    self@.lemma_cell_of(k, col as int);
                }
            }
            if !self.group_complete(&cells, Ghost(self@.column_cells(col as int))) {
                return false;
            }
            col += 1;
        }

        let mut group_x: usize = 0;
        while group_x < self.size
            invariant
                self.wf(),
                self.side_size <= 225,
                self.size <= self.side_size,
                group_x <= self.size,
                forall|p: int, q: int|
                    0 <= p < group_x && 0 <= q < self.size ==> self@.group_complete(
                        #[trigger] self@.block_cells(p, q),
                    ),
            decreases self.size - group_x,
        {
            let mut group_y: usize = 0;
            while group_y < self.size
                invariant
                    self.wf(),
                    self.side_size <= 225,
                    self.size <= self.side_size,
                    group_x < self.size,
                    group_y <= self.size,
                    forall|p: int, q: int|
                        0 <= p < group_x && 0 <= q < self.size ==> self@.group_complete(
                            #[trigger] self@.block_cells(p, q),
                        ),
                    forall|q: int|
                        0 <= q < group_y ==> self@.group_complete(
                            #[trigger] self@.block_cells(group_x as int, q),
                        ),
                decreases self.size - group_y,
            {
                proof {
                    let n = self.size as int;
                    crate::arith::lemma_index_in_range(group_x as int, 0, n, n);
                    crate::arith::lemma_index_in_range(group_y as int, 0, n, n);
                    crate::arith::lemma_pair_of_index(group_x as int, 0, n);
                    crate::arith::lemma_pair_of_index(group_y as int, 0, n);
                    assert forall|k: int| 0 <= k < self.side_size implies 0 <= #[trigger] self@.block_cells(
                        group_x as int,
                        group_y as int,
                    )[k] < self.grid@.len() by {
                        self@.lemma_block_cell(group_x as int, group_y as int, k);
                    }
                }
                let cells = self.group(group_x * self.size, group_y * self.size);
                if !self.group_complete(
                    &cells,
                    Ghost(self@.block_cells(group_x as int, group_y as int)),
                ) {
                    return false;
                }
                group_y += 1;
            }
            group_x += 1;
        }

        true
    }

    /// Writes `value` into the empty cell of row `r` and column `c`, as a
    /// value that the player entered.
    ///
    /// The move is refused, and the game left as it was, when the position is
    /// outside the grid, else when the value is not in `1..=side_size`, else
    /// when the cell holds a value, else when a cell of its row, column or
    /// block holds `value`.
    pub fn do_move(&mut self, r: usize, c: usize, value: u8) -> (done: Result<(), GameError>)
        requires
            old(self).wf(),
        ensures
            final(self).wf(),
            match old(self)@.move_error(r as int, c as int, value) {
                Some(error) => done == Err::<(), GameError>(error) && final(self)@ == old(self)@,
                None => done is Ok && final(self)@ == old(self)@.with_cell(
                    old(self)@.index(r as int, c as int),
                    Cell::played(value),
                ),
            },
    {
        proof {
            self@.lemma_sizes();
        }
        if r >= self.side_size || c >= self.side_size {
            return Err(GameError::IllegalPosition);
        }
        if value == 0 || value as usize > self.side_size {
            return Err(GameError::IllegalValue);
        }
        proof {
            self@.lemma_cell_of(r as int, c as int);
        }
        let index = self.index(r, c);
        if self.grid[index] != 0u8 {
            return Err(GameError::NonEmptyCell);
        }
        let allowed = self.valids(index);
        if !holds_value(&allowed, value) {
            return Err(GameError::InvalidValue);
        }
        self.grid[index] = Cell { value, initial: false };
        Ok(())
    }
}

} // verus!
