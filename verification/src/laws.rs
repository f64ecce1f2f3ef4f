//! What holds of every board: the laws that tie candidates, moves,
//! completeness and filling together.

use crate::board::Board;
use crate::cell::Cell;
use crate::errors::GameError;
use crate::counting::lemma_values_up_to;
use crate::board::values_up_to;
use vstd::prelude::*;

verus! {

/// On a board with every cell blank, every value of `1..=side` may go into
/// every cell.
pub proof fn lemma_blank_board_allows_all(size: int, i: int)
    requires
        1 <= size <= 15,
    ensures
        Board::empty(size).wf(),
        Board::empty(size).candidates(i) == values_up_to(size * size),
{
    let board = Board::empty(size);
    assert forall|v: u8| 1 <= v <= board.side implies !board.taken(i, v) by {
        if board.taken(i, v) {
            let j = choose|j: int|
                board.in_grid(j) && #[trigger] board.related(i, j) && board.cells[j].value == v;
            assert(board.cells[j] == Cell::blank());
        }
    }
    assert(board.candidates(i) =~= values_up_to(size * size));
}

/// After a move that was accepted, the value written is no longer a candidate
/// of any cell related to the cell it went into.
pub proof fn lemma_move_takes_candidate(board: Board, r: int, c: int, value: u8, n: int)
    requires
        board.wf(),
        0 <= r,
        0 <= c,
        board.move_error(r, c, value) is None,
        board.in_grid(n),
        board.related(board.index(r, c), n),
    ensures
        !board.with_cell(board.index(r, c), Cell::played(value)).candidates(n).contains(value),
{
    let at = board.index(r, c);
    let after = board.with_cell(at, Cell::played(value));
    board.lemma_cell_of(r, c);
    assert(after.in_grid(at) && after.related(n, at) && after.cells[at].value == value);
    assert(after.taken(n, value));
}

/// A move into a cell that holds a value is refused for that reason, whatever
/// value of `1..=side` is offered.
pub proof fn lemma_occupied_cell_refuses(board: Board, r: int, c: int, value: u8)
    requires
        board.wf(),
        0 <= r < board.side,
        0 <= c < board.side,
        1 <= value <= board.side,
        board.cells[board.index(r, c)].value != 0,
    ensures
        board.move_error(r, c, value) == Some(GameError::NonEmptyCell),
{
}

/// A board with an empty cell is not complete.
pub proof fn lemma_empty_cell_not_complete(board: Board, i: int)
    requires
        board.in_grid(i),
        board.cells[i].value == 0,
    ensures
        !board.complete(),
{
}

impl Board {
    /// The values that the cells listed in `group` hold, in that order.
    pub open spec fn group_values(self, group: Seq<int>) -> Seq<u8> {
        Seq::new(group.len(), |k: int| self.cells[group[k]].value)
    }

    /// Exactly one of the cells listed in `group` holds `v`.
    pub open spec fn group_holds_once(self, group: Seq<int>, v: int) -> bool {
        exists|k: int|
            0 <= k < group.len() && self.cells[#[trigger] group[k]].value == v && forall|l: int|
                0 <= l < group.len() && l != k ==> self.cells[#[trigger] group[l]].value != v
    }

    /// Each value of `1..=side` is held by exactly one of the cells listed in
    /// `group`.
    pub open spec fn group_exact(self, group: Seq<int>) -> bool {
        forall|v: int| 1 <= v <= self.side ==> #[trigger] self.group_holds_once(group, v)
    }

    /// Every row, every column and every block holds each value of `1..=side`
    /// exactly once.
    pub open spec fn exact(self) -> bool {
        &&& forall|r: int| 0 <= r < self.side ==> self.group_exact(#[trigger] self.row_cells(r))
        &&& forall|c: int| 0 <= c < self.side ==> self.group_exact(#[trigger] self.column_cells(c))
        &&& forall|p: int, q: int|
            0 <= p < self.size && 0 <= q < self.size ==> self.group_exact(
                #[trigger] self.block_cells(p, q),
            )
    }

    /// `group` lists `side` cells of the grid, no cell twice, and any two of
    /// them are related. Rows, columns and blocks are such groups.
    pub open spec fn is_unit(self, group: Seq<int>) -> bool {
        &&& group.len() == self.side
        &&& forall|k: int| 0 <= k < group.len() ==> self.in_grid(#[trigger] group[k])
        &&& forall|k: int, l: int|
            0 <= k < group.len() && 0 <= l < group.len() && k != l ==> #[trigger] group[k]
                != #[trigger] group[l] && self.related(group[k], group[l])
    }

    /// A row is a unit.
    pub proof fn lemma_row_is_unit(self, r: int)
        requires
            self.wf(),
            0 <= r < self.side,
        ensures
            self.is_unit(self.row_cells(r)),
    {
        let group = self.row_cells(r);
        assert forall|k: int| 0 <= k < group.len() implies self.in_grid(#[trigger] group[k])
            && self.row_of(group[k]) == r && self.col_of(group[k]) == k by {
            self.lemma_cell_of(r, k);
        }
    }

    /// A column is a unit.
    pub proof fn lemma_column_is_unit(self, c: int)
        requires
            self.wf(),
            0 <= c < self.side,
        ensures
            self.is_unit(self.column_cells(c)),
    {
        let group = self.column_cells(c);
        assert forall|k: int| 0 <= k < group.len() implies self.in_grid(#[trigger] group[k])
            && self.row_of(group[k]) == k && self.col_of(group[k]) == c by {
            self.lemma_cell_of(k, c);
        }
    }

    /// A block is a unit.
    pub proof fn lemma_block_is_unit(self, p: int, q: int)
        requires
            self.wf(),
            0 <= p < self.size,
            0 <= q < self.size,
        ensures
            self.is_unit(self.block_cells(p, q)),
    {
        let group = self.block_cells(p, q);
        let n = self.size;
        assert forall|k: int| 0 <= k < group.len() implies self.in_grid(#[trigger] group[k])
            && self.row_of(group[k]) == p * n + k / n && self.col_of(group[k]) == q * n + k % n
            && self.block_row_of(group[k]) == p && self.block_col_of(group[k]) == q by {
            self.lemma_block_cell(p, q, k);
        }
        assert forall|k: int, l: int|
            0 <= k < group.len() && 0 <= l < group.len() && k != l implies #[trigger] group[k]
            != #[trigger] group[l] by {
            crate::arith::lemma_index_of_pair(k, n, n);
            crate::arith::lemma_index_of_pair(l, n, n);
            self.lemma_block_cell(p, q, k);
            self.lemma_block_cell(p, q, l);
        }
    }

    /// Where the cells of a unit hold values of `1..=side` that differ from
    /// one another, they hold each of those values.
    pub proof fn lemma_distinct_unit_is_complete(self, group: Seq<int>)
        requires
            self.wf(),
            self.is_unit(group),
            self.full(),
            self.conflict_free(),
        ensures
            self.group_complete(group),
    {
        let values = self.group_values(group);
        self.lemma_sizes();
        assert(values.no_duplicates()) by {
            assert forall|k: int, l: int|
                0 <= k < values.len() && 0 <= l < values.len() && k != l implies values[k]
                != values[l] by {
                assert(self.related(group[k], group[l]));
            }
        }
        values.unique_seq_to_set();
        lemma_values_up_to(self.side);
        assert(values.to_set().subset_of(values_up_to(self.side))) by {
            assert forall|v: u8| values.to_set().contains(v) implies values_up_to(
                self.side,
            ).contains(v) by {
                let k = choose|k: int| 0 <= k < values.len() && values[k] == v;
                assert(self.cells[group[k]].value <= self.side);
            }
        }
        vstd::set_lib::lemma_len_subset(values.to_set(), values_up_to(self.side));
        vstd::set_lib::lemma_subset_equality(values.to_set(), values_up_to(self.side));
        assert forall|v: int| 1 <= v <= self.side implies #[trigger] self.group_holds(group, v) by {
            assert(values_up_to(self.side).contains(v as u8));
            assert(values.to_set().contains(v as u8));
            let k = choose|k: int| 0 <= k < values.len() && values[k] == v as u8;
            assert(self.cells[group[k]].value == v);
        }
    }

    /// A board without an empty cell and without two related cells of the
    /// same value is complete.
    pub proof fn lemma_full_conflict_free_is_complete(self)
        requires
            self.wf(),
            self.full(),
            self.conflict_free(),
        ensures
            self.complete(),
    {
        assert forall|r: int| 0 <= r < self.side implies self.group_complete(
            #[trigger] self.row_cells(r),
        ) by {
            self.lemma_row_is_unit(r);
            self.lemma_distinct_unit_is_complete(self.row_cells(r));
        }
        assert forall|c: int| 0 <= c < self.side implies self.group_complete(
            #[trigger] self.column_cells(c),
        ) by {
            self.lemma_column_is_unit(c);
            self.lemma_distinct_unit_is_complete(self.column_cells(c));
        }
        assert forall|p: int, q: int| 0 <= p < self.size && 0 <= q < self.size implies self.group_complete(
            #[trigger] self.block_cells(p, q),
        ) by {
            self.lemma_block_is_unit(p, q);
            self.lemma_distinct_unit_is_complete(self.block_cells(p, q));
        }
    }

    /// A board that was filled from its first cell on is complete, and no two
    /// related cells of it hold the same value.
    pub proof fn lemma_filled_is_complete(self, start: Board)
        requires
            self.wf(),
            self.fills(start, 0),
        ensures
            self.full(),
            self.conflict_free(),
            self.complete(),
    {
        assert forall|i: int| 0 <= i < self.cells.len() implies (#[trigger] self.cells[i]).value
            != 0 by {
            assert(self.fits_after_earlier(i));
        }
        assert forall|i: int, j: int|
            self.in_grid(i) && self.in_grid(j) && i != j && #[trigger] self.related(i, j)
                && self.cells[i].value != 0 implies self.cells[i].value
            != self.cells[j].value by {
            if i < j {
                assert(self.fits_after_earlier(j));
            } else {
                assert(self.fits_after_earlier(i));
                assert(self.related(j, i));
            }
        }
        self.lemma_full_conflict_free_is_complete();
    }

    /// Where `side` cells hold every value of `1..=side` between them, each
    /// of them holds one of those values, and no two hold the same.
    pub proof fn lemma_complete_group_is_exact(self, group: Seq<int>)
        requires
            self.wf(),
            group.len() == self.side,
            self.group_complete(group),
        ensures
            self.group_values(group).no_duplicates(),
            forall|k: int| 0 <= k < group.len() ==> 1 <= self.cells[#[trigger] group[k]].value <= self.side,
            self.group_exact(group),
    {
        broadcast use vstd::seq_lib::seq_to_set_is_finite;

        let values = self.group_values(group);
        let wanted = values_up_to(self.side);
        self.lemma_sizes();
        lemma_values_up_to(self.side);
        assert(wanted.subset_of(values.to_set())) by {
            assert forall|v: u8| wanted.contains(v) implies values.to_set().contains(v) by {
                assert(self.group_holds(group, v as int));
                let k = choose|k: int|
                    0 <= k < group.len() && self.cells[#[trigger] group[k]].value == v as int;
                assert(values[k] == v);
            }
        }
        values.lemma_cardinality_of_set();
        vstd::set_lib::lemma_len_subset(wanted, values.to_set());
        values.lemma_no_dup_set_cardinality();
        vstd::set_lib::lemma_subset_equality(wanted, values.to_set());
        assert forall|k: int| 0 <= k < group.len() implies 1 <= self.cells[#[trigger] group[k]].value
            <= self.side by {
            assert(values.to_set().contains(values[k]));
            assert(wanted.contains(values[k]));
        }
        assert forall|v: int| 1 <= v <= self.side implies #[trigger] self.group_holds_once(
            group,
            v,
        ) by {
            assert(self.group_holds(group, v));
            let k = choose|k: int|
                0 <= k < group.len() && self.cells[#[trigger] group[k]].value == v;
            assert forall|l: int| 0 <= l < group.len() && l != k implies self.cells[#[trigger] group[l]].value
                != v by {
                assert(values[l] != values[k]);
            }
        }
    }

    /// Where each value of `1..=side` is held exactly once in a group, it is
    /// held.
    pub proof fn lemma_exact_group_is_complete(self, group: Seq<int>)
        requires
            self.group_exact(group),
        ensures
            self.group_complete(group),
    {
        assert forall|v: int| 1 <= v <= self.side implies #[trigger] self.group_holds(group, v) by {
            assert(self.group_holds_once(group, v));
        }
    }

    /// A board is complete exactly when every row, every column and every
    /// block holds each value of `1..=side` exactly once.
    pub proof fn lemma_complete_iff_exact(self)
        requires
            self.wf(),
        ensures
            self.complete() <==> self.exact(),
    {
        if self.complete() {
            assert forall|r: int| 0 <= r < self.side implies self.group_exact(
                #[trigger] self.row_cells(r),
            ) by {
                self.lemma_complete_group_is_exact(self.row_cells(r));
            }
            assert forall|c: int| 0 <= c < self.side implies self.group_exact(
                #[trigger] self.column_cells(c),
            ) by {
                self.lemma_complete_group_is_exact(self.column_cells(c));
            }
            assert forall|p: int, q: int| 0 <= p < self.size && 0 <= q < self.size implies self.group_exact(
                #[trigger] self.block_cells(p, q),
            ) by {
                self.lemma_complete_group_is_exact(self.block_cells(p, q));
            }
        }
        if self.exact() {
            assert forall|r: int| 0 <= r < self.side implies self.group_complete(
                #[trigger] self.row_cells(r),
            ) by {
                self.lemma_exact_group_is_complete(self.row_cells(r));
            }
            assert forall|c: int| 0 <= c < self.side implies self.group_complete(
                #[trigger] self.column_cells(c),
            ) by {
                self.lemma_exact_group_is_complete(self.column_cells(c));
            }
            assert forall|p: int, q: int| 0 <= p < self.size && 0 <= q < self.size implies self.group_complete(
                #[trigger] self.block_cells(p, q),
            ) by {
                self.lemma_exact_group_is_complete(self.block_cells(p, q));
            }
            assert forall|i: int| 0 <= i < self.cells.len() implies (#[trigger] self.cells[i]).value
                != 0 by {
                self.lemma_position_of(i);
                let group = self.row_cells(self.row_of(i));
                self.lemma_complete_group_is_exact(group);
                assert(group[self.col_of(i)] == i);
            }
        }
    }
}

} // verus!
