//! Solving strategies, and the one that only ever writes a value that is
//! forced.

use crate::board::Board;
use crate::board::values_up_to;
use crate::cell::Cell;
use crate::counting::lemma_values_up_to;
use crate::errors::SolverError;
use crate::game::Game;
use vstd::prelude::*;

verus! {

impl Board {
    /// A cell has finitely many candidates, at most `side`.
    pub proof fn lemma_candidates_finite(self, i: int)
        requires
            self.wf(),
        ensures
            self.candidates(i).finite(),
            self.candidates(i).len() <= self.side,
            self.candidates(i).subset_of(values_up_to(self.side)),
    {
        self.lemma_sizes();
        lemma_values_up_to(self.side);
        vstd::set_lib::lemma_len_subset(self.candidates(i), values_up_to(self.side));
    }

    /// The cell of index `i` is empty and exactly one value may go into it.
    pub open spec fn forced_at(self, i: int) -> bool {
        self.in_grid(i) && self.cells[i].value == 0 && self.candidates(i).len() == 1
    }

    /// The index of the first cell from `from` on that is empty with exactly
    /// one candidate, or the number of cells where there is none.
    pub open spec fn first_forced(self, from: int) -> int
        decreases self.cells.len() - from,
    {
        if from >= self.cells.len() {
            self.cells.len() as int
        } else if self.forced_at(from) {
            from
        } else {
            self.first_forced(from + 1)
        }
    }

    /// The board after one forced value was written: the first cell that is
    /// empty with exactly one candidate gets that candidate, as a value that
    /// is not a given.
    pub open spec fn force_one(self) -> Board {
        let i = self.first_forced(0);
        self.with_cell(i, Cell::played(self.candidates(i).choose()))
    }

    /// Nothing more is forced: the board is complete, or no empty cell has
    /// exactly one candidate.
    pub open spec fn settled(self) -> bool {
        self.complete() || self.first_forced(0) >= self.cells.len()
    }

    /// The board after every forced value was written, one after the other,
    /// until the board is complete or nothing more is forced.
    pub open spec fn forced(self) -> Board
        decreases self.vacant().len(),
        via Self::forced_ends
    {
        if !self.wf() || self.settled() {
            self
        } else {
            self.force_one().forced()
        }
    }

    #[via_fn]
    proof fn forced_ends(self) {
        if self.wf() && !self.settled() {
            self.lemma_force_one();
        }
    }

    /// What `first_forced` finds is the first such cell.
    pub proof fn lemma_first_forced(self, from: int)
        requires
            0 <= from,
        ensures
            from <= self.first_forced(from) || self.first_forced(from) == self.cells.len(),
            self.first_forced(from) <= self.cells.len(),
            self.first_forced(from) < self.cells.len() ==> self.forced_at(self.first_forced(from)),
            forall|j: int| from <= j < self.first_forced(from) ==> !self.forced_at(j),
        decreases self.cells.len() - from,
    {
        if from < self.cells.len() && !self.forced_at(from) {
            self.lemma_first_forced(from + 1);
        }
    }

    /// Writing a forced value keeps the board well formed and leaves one
    /// empty cell fewer.
    pub proof fn lemma_force_one(self)
        requires
            self.wf(),
            self.first_forced(0) < self.cells.len(),
        ensures
            self.force_one().wf(),
            self.vacant().finite(),
            self.force_one().vacant().len() == self.vacant().len() - 1,
            self.candidates(self.first_forced(0)).contains(
                self.candidates(self.first_forced(0)).choose(),
            ),
    {
        let i = self.first_forced(0);
        self.lemma_first_forced(0);
        self.lemma_candidates_finite(i);
        let v = self.candidates(i).choose();
        assert(self.candidates(i).contains(v));
        self.lemma_counts_after_write(i, Cell::played(v));
        let after = self.force_one();
        assert forall|j: int| 0 <= j < after.cells.len() implies (#[trigger] after.cells[j]).value
            <= after.side by {
            if j != i {
                assert(after.cells[j] == self.cells[j]);
            }
        }
    }
}

impl Board {
    /// What may go into a cell, and whether the board is well formed or
    /// complete, depends on the values only.
    pub proof fn lemma_same_values(self, other: Board)
        requires
            self.same_values(other),
        ensures
            self.wf() == other.wf(),
            self.wf() ==> self.complete() == other.complete(),
            forall|i: int| self.candidates(i) == other.candidates(i),
            forall|i: int| self.forced_at(i) == other.forced_at(i),
            self.vacant() == other.vacant(),
    {
        assert forall|i: int, v: u8| self.taken(i, v) == other.taken(i, v) by {
            if self.taken(i, v) {
                let j = choose|j: int|
                    self.in_grid(j) && #[trigger] self.related(i, j) && self.cells[j].value == v;
                assert(other.in_grid(j) && other.related(i, j) && other.cells[j].value == v);
            }
            if other.taken(i, v) {
                let j = choose|j: int|
                    other.in_grid(j) && #[trigger] other.related(i, j) && other.cells[j].value
                        == v;
                assert(self.in_grid(j) && self.related(i, j) && self.cells[j].value == v);
            }
        }
        assert forall|i: int| self.candidates(i) == other.candidates(i) by {
            assert(self.candidates(i) =~= other.candidates(i));
        }
        assert(self.vacant() =~= other.vacant());
        if self.wf() {
            assert forall|i: int| 0 <= i < other.cells.len() implies (#[trigger] other.cells[i]).value
                <= other.side by {
                assert(self.cells[i].value <= self.side);
            }
        }
        if other.wf() {
            assert forall|i: int| 0 <= i < self.cells.len() implies (#[trigger] self.cells[i]).value
                <= self.side by {
                assert(other.cells[i].value <= other.side);
            }
        }
        if self.wf() {
            if self.complete() {
                self.lemma_complete_same_values(other);
            }
            if other.complete() {
                other.lemma_complete_same_values(self);
            }
        }
    }

    /// A board that holds the values of a complete board is complete.
    proof fn lemma_complete_same_values(self, other: Board)
        requires
            self.wf(),
            self.same_values(other),
            self.complete(),
        ensures
            other.complete(),
    {
        assert forall|group: Seq<int>|
            (forall|k: int| 0 <= k < group.len() ==> self.in_grid(#[trigger] group[k]))
                && #[trigger] self.group_complete(group) implies other.group_complete(group) by {
            assert forall|v: int| 1 <= v <= other.side implies #[trigger] other.group_holds(
                group,
                v,
            ) by {
                assert(self.group_holds(group, v));
                let k = choose|k: int|
                    0 <= k < group.len() && self.cells[#[trigger] group[k]].value == v;
                assert(self.in_grid(group[k]));
                assert(other.cells[group[k]].value == v);
            }
        }
        assert(other.full()) by {
            assert forall|i: int| 0 <= i < other.cells.len() implies (#[trigger] other.cells[i]).value
                != 0 by {
                assert(self.cells[i].value != 0);
            }
        }
        assert forall|r: int| 0 <= r < other.side implies other.group_complete(
            #[trigger] other.row_cells(r),
        ) by {
            assert(self.group_complete(self.row_cells(r)));
            assert(self.row_cells(r) =~= other.row_cells(r));
            self.lemma_row_is_unit(r);
        }
        assert forall|c: int| 0 <= c < other.side implies other.group_complete(
            #[trigger] other.column_cells(c),
        ) by {
            assert(self.group_complete(self.column_cells(c)));
            assert(self.column_cells(c) =~= other.column_cells(c));
            self.lemma_column_is_unit(c);
        }
        assert forall|p: int, q: int| 0 <= p < other.size && 0 <= q < other.size implies other.group_complete(
            #[trigger] other.block_cells(p, q),
        ) by {
            assert(self.group_complete(self.block_cells(p, q)));
            assert(self.block_cells(p, q) =~= other.block_cells(p, q));
            self.lemma_block_is_unit(p, q);
        }
    }

    /// The first forced cell depends on the values only.
    pub proof fn lemma_first_forced_same_values(self, other: Board, from: int)
        requires
            self.same_values(other),
        ensures
            self.first_forced(from) == other.first_forced(from),
        decreases self.cells.len() - from,
    {
        self.lemma_same_values(other);
        if from < self.cells.len() && !self.forced_at(from) {
            self.lemma_first_forced_same_values(other, from + 1);
        }
    }

    /// Whether writing every forced value completes the board depends on
    /// the values only: which are givens, and what is selected, does not
    /// count.
    pub proof fn lemma_forced_same_values(self, other: Board)
        requires
            self.wf(),
            self.same_values(other),
        ensures
            self.forced().same_values(other.forced()),
            self.forced().complete() == other.forced().complete(),
        decreases self.vacant().len(),
    {
        self.lemma_same_values(other);
        self.lemma_first_forced_same_values(other, 0);
        if !self.settled() {
            self.lemma_first_forced(0);
            self.lemma_force_one();
            other.lemma_force_one();
            let a = self.force_one();
            let b = other.force_one();
            assert(a.same_values(b)) by {
                assert forall|i: int| 0 <= i < a.cells.len() implies (#[trigger] a.cells[i]).value
                    == b.cells[i].value by {
                    if i != self.first_forced(0) {
                        assert(a.cells[i] == self.cells[i]);
                        assert(b.cells[i] == other.cells[i]);
                    }
                }
            }
            a.lemma_forced_same_values(b);
        }
        self.forced().lemma_same_values(other.forced());
    }
}

/// A way to solve a game in place.
pub trait Solver {
    /// The boards that this solver says it completes. A solver reports
    /// success on such a board only; it may fail on one all the same. A
    /// solver that says nothing of itself is taken to complete any board.
    open spec fn completes(&self, board: Board) -> bool {
        true
    }

    /// Tries to complete the grid of `game`, writing into it, and says whether
    /// it did: after `Ok` the grid is complete, and the grid it was given is
    /// one that the solver says it completes.
    fn solve(&self, game: &mut Game) -> (outcome: Result<(), SolverError>)
        requires
            old(game).wf(),
        ensures
            outcome is Ok ==> final(game)@.complete() && self.completes(old(game)@),
    ;
}

/// The solver that writes forced values only: as long as the grid is not
/// complete, it takes the first empty cell with exactly one candidate and
/// writes that candidate. It never guesses, so it gives up on a grid that
/// needs more than that.
pub struct Obvious;

impl Solver for Obvious {
    /// The boards that become complete once every forced value is written.
    open spec fn completes(&self, board: Board) -> bool {
        board.forced().complete()
    }

    fn solve(&self, game: &mut Game) -> (outcome: Result<(), SolverError>)
        ensures
            final(game)@ == old(game)@.forced(),
            outcome is Ok <==> old(game)@.forced().complete(),
    {
        loop
            invariant
                game.wf(),
                game@.forced() == old(game)@.forced(),
            decreases game@.vacant().len(),
        {
            if game.is_done() {
                return Ok(());
            }
            let ghost before = game@;
            let cells = game.grid.len();
            let mut i: usize = 0;
            let mut found = false;
            while i < cells
                invariant_except_break
                    !found,
                    game@ == before,
                    before.first_forced(0) == before.first_forced(i as int),
                invariant
                    before.wf(),
                    cells == before.cells.len(),
                    i <= cells,
                ensures
                    game.wf(),
                    found ==> !before.settled() && game@ == before.force_one(),
                    !found ==> game@ == before && before.first_forced(0) >= cells,
                decreases cells - i,
            {
                if game.grid[i] == 0u8 {
                    let values = game.valids(i);
                    proof {
                        values@.unique_seq_to_set();
                    }
                    if values.len() == 1 {
                        let value = values[0];
                        proof {
                            before.lemma_candidates_finite(i as int);
                            assert(values@.to_set().contains(value));
                            assert(before.forced_at(i as int));
                            assert(before.first_forced(0) == i);
                            before.lemma_force_one();
                            let chosen = before.candidates(i as int).choose();
                            assert(values@.to_set().contains(chosen));
                            assert(chosen == value);
                        }
                        game.grid[i] = Cell { value, initial: false };
                        found = true;
                        break ;
                    }
                }
                i += 1;
            }
            if !found {
                return Err(SolverError::FailedToSolve);
            }
            proof {
                before.lemma_force_one();
            }
        }
    }
}

} // verus!
