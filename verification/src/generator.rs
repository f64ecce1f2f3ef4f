//! Making a puzzle: a grid is filled at random, cell after cell with
//! backtracking, and then clues are taken away at random while a solver can
//! still complete what is left.

use crate::board::Board;
use crate::cell::Cell;
use crate::game::Game;
use crate::random::random_below;
use crate::solver::Obvious;
use crate::solver::Solver;
use vstd::prelude::*;

verus! {

impl Board {
    /// Every cell from index `from` on is blank.
    pub open spec fn blank_from(self, from: int) -> bool {
        forall|i: int| from <= i < self.cells.len() ==> #[trigger] self.cells[i] == Cell::blank()
    }

    /// The two boards have the same sizes and selection, and the same cells
    /// before index `from`.
    pub open spec fn same_before(self, start: Board, from: int) -> bool {
        &&& self.size == start.size
        &&& self.side == start.side
        &&& self.selected_index == start.selected_index
        &&& self.selected_value == start.selected_value
        &&& self.cells.len() == start.cells.len()
        &&& forall|i: int|
            0 <= i < from && i < self.cells.len() ==> #[trigger] self.cells[i] == start.cells[i]
    }

    /// The cell of index `j` holds a given of `1..=side` that no related cell
    /// before it holds.
    pub open spec fn fits_after_earlier(self, j: int) -> bool {
        &&& self.cells[j].initial
        &&& 1 <= self.cells[j].value <= self.side
        &&& forall|i: int|
            0 <= i < j && #[trigger] self.related(i, j) ==> self.cells[i].value
                != self.cells[j].value
    }

    /// This board is `start` with the cells from index `from` on filled: each
    /// of them holds a given that no related cell before it holds.
    pub open spec fn fills(self, start: Board, from: int) -> bool {
        &&& self.same_before(start, from)
        &&& forall|j: int|
            0 <= from <= j < self.cells.len() ==> #[trigger] self.fits_after_earlier(j)
    }

    /// The cells from index `from` on can be filled.
    pub open spec fn fillable(self, from: int) -> bool {
        exists|done: Board| #[trigger] done.fills(self, from)
    }

    /// A way to fill the board from `from` on writes one of the candidates of
    /// the cell `from`, and fills the rest from there.
    pub proof fn lemma_fill_goes_through(self, done: Board, from: int)
        requires
            self.wf(),
            self.in_grid(from),
            self.blank_from(from),
            done.fills(self, from),
        ensures
            self.candidates(from).contains(done.cells[from].value),
            done.fills(self.with_cell(from, Cell::given(done.cells[from].value)), from + 1),
    {
        let v = done.cells[from].value;
        assert(done.fits_after_earlier(from));
        if self.taken(from, v) {
            let j = choose|j: int|
                self.in_grid(j) && #[trigger] self.related(from, j) && self.cells[j].value == v;
            if j < from {
                assert(done.cells[j] == self.cells[j]);
                assert(done.related(j, from));
            } else {
                assert(self.cells[j] == Cell::blank());
            }
        }
        let next = self.with_cell(from, Cell::given(v));
        assert forall|i: int| 0 <= i < from + 1 && i < done.cells.len() implies #[trigger] done.cells[i]
            == next.cells[i] by {
            if i < from {
                assert(done.cells[i] == self.cells[i]);
            }
        }
        assert forall|j: int| 0 <= from + 1 <= j < done.cells.len() implies #[trigger] done.fits_after_earlier(
            j,
        ) by {}
    }
}

impl Board {
    /// This board is `start` with some clues taken away: every cell is as it
    /// was, or blank, or holds the value it held, now as a given.
    pub open spec fn thinned_from(self, start: Board) -> bool {
        &&& self.same_before(start, 0)
        &&& forall|i: int|
            0 <= i < self.cells.len() ==> {
                ||| #[trigger] self.cells[i] == start.cells[i]
                ||| self.cells[i] == Cell::blank()
                ||| self.cells[i] == Cell::given(start.cells[i].value)
            }
    }

    /// Some cell that held a value on `start` holds that value here as a
    /// given: what a removal leaves behind where the solver failed and the
    /// value went back.
    pub open spec fn put_back_from(self, start: Board) -> bool {
        exists|i: int|
            0 <= i < self.cells.len() && start.cells[i].value != 0 && #[trigger] self.cells[i]
                == Cell::given(start.cells[i].value)
    }

    /// The board that a solver is tried on: the same grid with nothing
    /// selected.
    pub open spec fn unselected(self) -> Board {
        Board { selected_index: None, selected_value: None, ..self }
    }
}

/// How many times in a row `unfill` lets the solver fail before it stops.
pub const MAX_UNFILL_ATTEMPTS: usize = 3;

/// The number of clues below which `unfill` takes no more clues away.
pub const MIN_CLUES: usize = 17;

impl Game {
    /// Fills the cells from index `current_cell` on: what [`Game::fill_rng`]
    /// does, cell after cell.
    fn fill_cells(&mut self, current_cell: usize) -> (filled: bool)
        requires
            old(self).wf(),
        ensures
            final(self).wf(),
            final(self)@.same_before(old(self)@, current_cell as int),
            filled ==> final(self)@.fills(old(self)@, current_cell as int),
            !filled ==> current_cell < final(self).grid@.len() && final(self)@.cells[current_cell as int]
                == Cell::blank(),
            old(self)@.blank_from(current_cell as int) ==> filled == old(self)@.fillable(
                current_cell as int,
            ),
            old(self)@.blank_from(current_cell as int) && !filled ==> final(self)@ == old(self)@,
        decreases old(self).grid@.len() - current_cell,
    {
        proof {
            self@.lemma_sizes();
        }
        if current_cell >= self.side_size * self.side_size {
            assert(self@.fills(self@, current_cell as int));
            return true;
        }
        let values = self.valids(current_cell);
        let ghost start = self@;
        let ghost at = current_cell as int;
        let mut n: usize = 0;
        while n < values.len()
            invariant
                start.wf(),
                self.wf(),
                start == old(self)@,
                start.in_grid(at),
                start.cells.len() <= 50625,
                at == current_cell,
                values@.to_set() == start.candidates(at),
                n <= values.len(),
                self@.same_before(start, at),
                start.blank_from(at) ==> self@.blank_from(at + 1),
                start.blank_from(at) ==> forall|m: int|
                    0 <= m < n ==> !(#[trigger] start.with_cell(at, Cell::given(values@[m]))).fillable(
                        at + 1,
                    ),
            decreases values.len() - n,
        {
            let value = values[n];
            self.grid[current_cell] = Cell { value, initial: true };
            let ghost tried = self@;
            proof {
                assert(values@.to_set().contains(value));
                assert forall|j: int| 0 <= j < tried.cells.len() implies (#[trigger] tried.cells[j]).value
                    <= tried.side by {}
                if start.blank_from(at) {
                    assert(tried.cells =~= start.with_cell(at, Cell::given(value)).cells);
                    assert(tried.blank_from(at + 1));
                }
            }
            if self.fill_cells(current_cell + 1) {
                proof {
                    let done = self@;
                    assert(done.cells[at] == tried.cells[at]);
                    assert(done.fits_after_earlier(at)) by {
                        assert forall|i: int| 0 <= i < at && #[trigger] done.related(i, at) implies done.cells[i].value
                            != done.cells[at].value by {
                            assert(done.cells[i] == start.cells[i]);
                            assert(start.related(at, i));
                            assert(!start.taken(at, value));
                        }
                    }
                    assert forall|j: int| 0 <= at <= j < done.cells.len() implies #[trigger] done.fits_after_earlier(
                        j,
                    ) by {
                        if j > at {
                            assert(done.fills(tried, at + 1));
                        }
                    }
                    assert(done.fills(start, at));
                }
                return true;
            }
            n += 1;
        }

        self.grid[current_cell] = Cell { value: 0, initial: false };
        proof {
            if start.blank_from(at) {
                assert(self@.cells =~= start.cells);
                if start.fillable(at) {
                    let done = choose|done: Board| #[trigger] done.fills(start, at);
                    start.lemma_fill_goes_through(done, at);
                    let v = done.cells[at].value;
                    assert(values@.to_set().contains(v));
                    let m = choose|m: int| 0 <= m < values@.len() && values@[m] == v;
                    assert(start.with_cell(at, Cell::given(values@[m])).fillable(at + 1));
                }
            }
        }
        false
    }

    /// Fills the cells from index `current_cell` on, in index order, each with
    /// a given drawn from its candidates, and goes back to try the next
    /// candidate of an earlier cell where a later cell is left without any.
    ///
    /// The cells before `current_cell` are never touched. On `true` every cell
    /// from `current_cell` on holds a given that no related cell before it
    /// holds. On `false` the cell `current_cell` is blank.
    ///
    /// Where the cells from `current_cell` on are blank to begin with, the
    /// answer is exact: `true` when they can be filled, and else `false` with
    /// the game as it was. A grid that is blank all over can always be filled,
    /// and comes out complete, with no two related cells of the same value.
    pub fn fill_rng(&mut self, current_cell: usize) -> (filled: bool)
        requires
            old(self).wf(),
        ensures
            final(self).wf(),
            final(self)@.same_before(old(self)@, current_cell as int),
            filled ==> final(self)@.fills(old(self)@, current_cell as int),
            !filled ==> current_cell < final(self).grid@.len() && final(self)@.cells[current_cell as int]
                == Cell::blank(),
            old(self)@.blank_from(current_cell as int) ==> filled == old(self)@.fillable(
                current_cell as int,
            ),
            old(self)@.blank_from(current_cell as int) && !filled ==> final(self)@ == old(self)@,
            old(self)@.blank_from(0) && current_cell == 0 ==> filled && final(self)@.complete()
                && final(self)@.conflict_free(),
    {
        let filled = self.fill_cells(current_cell);
        proof {
            if old(self)@.blank_from(0) && current_cell == 0 {
                old(self)@.lemma_fillable();
                self@.lemma_filled_is_complete(old(self)@);
            }
        }
        filled
    }

    /// The index of the cell that holds a value and has exactly `k` such
    /// cells before it.
    pub fn nth_non_empty(&self, k: usize) -> (index: usize)
        requires
            k < self@.occupied().len(),
        ensures
            index < self.grid@.len(),
            self@.cells[index as int].value != 0,
            self@.occupied_below(index as int).len() == k,
    {
        let mut seen: usize = 0;
        let mut index: usize = 0;
        proof {
            self@.lemma_occupied_below(0);
        }
        while self.grid[index].value == 0 || seen < k
            invariant
                index < self.grid.len(),
                seen == self@.occupied_below(index as int).len(),
                seen <= k,
                k < self@.occupied().len(),
            decreases self.grid.len() - index,
        {
            proof {
                self@.lemma_occupied_below(index as int);
            }
            if self.grid[index].value != 0 {
                seen += 1;
            }
            index += 1;
        }
        index
    }

    /// Takes away the clue that has exactly `k` clues before it: the cell
    /// becomes blank. Returns the index of the cell and the value it held.
    pub fn take_clue(&mut self, k: usize) -> (taken: (usize, u8))
        requires
            k < old(self)@.occupied().len(),
        ensures
            taken.0 < old(self).grid@.len(),
            taken.1 == old(self)@.cells[taken.0 as int].value,
            taken.1 != 0,
            old(self)@.occupied_below(taken.0 as int).len() == k,
            final(self)@ == old(self)@.with_cell(taken.0 as int, Cell::blank()),
    {
        let index = self.nth_non_empty(k);
        let value = self.grid[index].value;
        self.grid[index] = Cell { value: 0, initial: false };
        (index, value)
    }

    /// Settles the removal of the clue `value` from the blank cell `index`,
    /// once a solver was tried on the grid without it. Where the solver
    /// completed the grid, the cell stays blank. Where it did not, the value
    /// goes back as a given, and the answer is `true`: an attempt was spent.
    pub fn settle_clue(&mut self, index: usize, value: u8, solved: bool) -> (spent: bool)
        requires
            index < old(self).grid@.len(),
        ensures
            spent == !solved,
            solved ==> final(self)@ == old(self)@,
            !solved ==> final(self)@ == old(self)@.with_cell(index as int, Cell::given(value)),
    {
        if !solved {
            self.grid[index] = Cell { value, initial: true };
            true
        } else {
            false
        }
    }

    /// A copy of the grid for a solver to write into, with nothing selected.
    pub fn trial_copy(&self) -> (copy: Game)
        ensures
            copy@ == self@.unselected(),
    {
        Game {
            size: self.size,
            side_size: self.side_size,
            selected_index: None,
            selected_value: None,
            grid: self.grid.clone(),
        }
    }

    /// Takes clues away at random for as long as `solver` completes what is
    /// left, at least `min_clues` cells hold a value, and the solver has
    /// failed fewer than `max_attempts` times. Returns how many times the
    /// solver failed.
    ///
    /// Each round draws one of the cells that hold a value, blanks it, and
    /// tries the solver on a copy of the grid. Where the solver fails, the
    /// value goes back, as a given, and the failure is counted.
    ///
    /// Whatever is drawn and whatever the solver answers: a cell keeps its
    /// value or becomes blank; a round starts only with `min_clues` values or
    /// more on the grid, so at most one value goes below that floor; the
    /// rounds go on until the floor is passed or the attempts are spent, and
    /// where they stop at the floor or above it, the last of them was a
    /// failure, whose value stands on the grid as a given; a game with fewer
    /// values than `min_clues`, or no attempt to spend, is left as it was;
    /// and where a value was taken away for good, the values left are those
    /// of a grid that the solver reported success on.
    pub fn unfill_with<S: Solver>(&mut self, solver: &S, min_clues: usize, max_attempts: usize) -> (spent:
        usize)
        requires
            old(self).wf(),
            min_clues > 0,
        ensures
            final(self).wf(),
            final(self)@.thinned_from(old(self)@),
            old(self)@.occupied().len() >= min_clues ==> final(self)@.occupied().len() + 1
                >= min_clues,
            old(self)@.occupied().len() < min_clues || max_attempts == 0 ==> final(self)@ == old(
                self,
            )@,
            spent <= max_attempts,
            final(self)@.occupied().len() >= min_clues ==> spent == max_attempts,
            final(self)@.occupied().len() >= min_clues && max_attempts > 0
                ==> final(self)@.put_back_from(old(self)@),
            final(self)@.same_values(old(self)@) || exists|tried: Board|
                solver.completes(tried) && #[trigger] final(self)@.same_values(tried),
    {
        let mut attempt = max_attempts;
        let mut rng = rand::thread_rng();
        let mut clues = self.nb_non_empty();
        while attempt > 0 && clues >= min_clues
            invariant
                self.wf(),
                min_clues > 0,
                clues == self@.occupied().len(),
                clues <= old(self)@.occupied().len(),
                attempt <= max_attempts,
                attempt == 0 && max_attempts > 0 ==> self@.put_back_from(old(self)@),
                self@.thinned_from(old(self)@),
                old(self)@.occupied().len() >= min_clues ==> clues + 1 >= min_clues,
                old(self)@.occupied().len() < min_clues || max_attempts == 0 ==> self@ == old(self)@,
                self@.same_values(old(self)@) || exists|tried: Board|
                    solver.completes(tried) && #[trigger] self@.same_values(tried),
            decreases attempt + clues,
        {
            let ghost before = self@;
            let drawn = random_below(&mut rng, clues);
            let (index, value) = self.take_clue(drawn);
            let ghost without = self@;
            proof {
                before.lemma_counts_after_write(index as int, Cell::blank());
                assert forall|j: int| 0 <= j < without.cells.len() implies (#[trigger] without.cells[j]).value
                    <= without.side by {
                    if j != index {
                        assert(without.cells[j] == before.cells[j]);
                    }
                }
            }
            let mut game_copy = self.trial_copy();
            let solved = solver.solve(&mut game_copy).is_ok();
            if self.settle_clue(index, value, solved) {
                attempt -= 1;
                proof {
                    without.lemma_counts_after_write(index as int, Cell::given(value));
                    assert(self@.occupied() =~= before.occupied());
                    assert forall|j: int| 0 <= j < self@.cells.len() implies (#[trigger] self@.cells[j]).value
                        == before.cells[j].value by {
                        if j != index {
                            assert(self@.cells[j] == before.cells[j]);
                        }
                    }
                    assert(self@.same_values(before));
                    assert(self@.put_back_from(old(self)@)) by {
                        assert(before.cells[index as int].value == value);
                        assert(old(self)@.cells[index as int].value == value);
                        assert(self@.cells[index as int] == Cell::given(
                            old(self)@.cells[index as int].value,
                        ));
                    }
                    if !before.same_values(old(self)@) {
                        let tried = choose|tried: Board|
                            solver.completes(tried) && #[trigger] before.same_values(tried);
                        assert(self@.same_values(tried));
                    }
                }
            } else {
                clues -= 1;
                proof {
                    assert(self@.same_values(without.unselected()));
                }
            }
            proof {
                assert forall|i: int| 0 <= i < self@.cells.len() implies {
                    ||| #[trigger] self@.cells[i] == old(self)@.cells[i]
                    ||| self@.cells[i] == Cell::blank()
                    ||| self@.cells[i] == Cell::given(old(self)@.cells[i].value)
                } by {
                    if i != index {
                        assert(self@.cells[i] == before.cells[i]);
                    } else {
                        assert(before.cells[i] == old(self)@.cells[i] || before.cells[i]
                            == Cell::given(old(self)@.cells[i].value));
                    }
                }
            }
        }
        max_attempts - attempt
    }

    /// Takes clues away at random with the usual settings: see
    /// [`Game::unfill_with`], which this calls with [`MIN_CLUES`] and
    /// [`MAX_UNFILL_ATTEMPTS`].
    ///
    /// A game that holds [`MIN_CLUES`] values or more does not come out
    /// untouched: either it is left with fewer than [`MIN_CLUES`] values, or
    /// the solver failed [`MAX_UNFILL_ATTEMPTS`] times, and the value that
    /// went back last stands on the grid as a given.
    pub fn unfill<S: Solver>(&mut self, solver: S)
        requires
            old(self).wf(),
        ensures
            final(self).wf(),
            final(self)@.thinned_from(old(self)@),
            old(self)@.occupied().len() >= MIN_CLUES ==> final(self)@.occupied().len() + 1
                >= MIN_CLUES,
            old(self)@.occupied().len() < MIN_CLUES ==> final(self)@ == old(self)@,
            final(self)@.occupied().len() >= MIN_CLUES ==> final(self)@.put_back_from(old(self)@),
            final(self)@.same_values(old(self)@) || exists|tried: Board|
                solver.completes(tried) && #[trigger] final(self)@.same_values(tried),
    {
        self.unfill_with(&solver, MIN_CLUES, MAX_UNFILL_ATTEMPTS);
    }

    /// Turns this game into a new puzzle: the grid is made blank, filled at
    /// random, and thinned with the solver of forced values and the usual
    /// settings.
    ///
    /// What comes out is some complete grid without two related cells of the
    /// same value, with clues taken away: see [`Game::unfill`] for how many
    /// are left. Writing forced values, one after the other, completes it.
    pub fn new_random_game(&mut self)
        requires
            old(self).wf(),
        ensures
            final(self).wf(),
            final(self)@.same_before(old(self)@, 0),
            exists|solution: Board|
                {
                    &&& solution.wf()
                    &&& solution.complete()
                    &&& solution.conflict_free()
                    &&& solution.fills(old(self)@.cleared(), 0)
                    &&& #[trigger] final(self)@.thinned_from(solution)
                    &&& solution.cells.len() < MIN_CLUES ==> final(self)@ == solution
                },
            final(self)@.cells.len() >= MIN_CLUES ==> final(self)@.occupied().len() + 1 >= MIN_CLUES,
            final(self)@.forced().complete(),
    {
        proof {
            self@.lemma_sizes();
        }
        self.clear();
        proof {
            assert(self@.blank_from(0));
            assert(self@.wf());
        }
        let filled = self.fill_rng(0);
        let ghost solution = self@;
        proof {
            solution.lemma_full_count();
        }
        self.unfill(Obvious);
        proof {
            if self@.same_values(solution) {
                self@.lemma_same_values(solution);
            } else {
                let tried = choose|tried: Board|
                    Obvious.completes(tried) && #[trigger] self@.same_values(tried);
                self@.lemma_forced_same_values(tried);
            }
        }
    }
}

} // verus!
