use sudocurs::errors::SolverError;
use sudocurs::game::Cell;
use sudocurs::game::Game;
use sudocurs::generator::MAX_UNFILL_ATTEMPTS;
use sudocurs::generator::MIN_CLUES;
use sudocurs::solver::Obvious;
use sudocurs::solver::Solver;

/// A solver that completes nothing.
struct Never;

impl Solver for Never {
    fn solve(&self, _game: &mut Game) -> Result<(), SolverError> {
        Err(SolverError::FailedToSolve)
    }
}

/// A solver that claims to complete everything.
struct Always;

impl Solver for Always {
    fn solve(&self, game: &mut Game) -> Result<(), SolverError> {
        for cell in game.grid.iter_mut() {
            cell.value = 1;
        }
        Ok(())
    }
}

/// A complete grid of block size `size`: each row is the first row shifted.
fn pattern(size: usize) -> Game {
    let mut game = Game::new(size);
    let side = size * size;
    for r in 0..side {
        for c in 0..side {
            let value = ((size * (r % size) + r / size + c) % side + 1) as u8;
            game.grid[r * side + c] = Cell {
                value,
                initial: true,
            };
        }
    }
    game
}

fn values(game: &Game) -> Vec<u8> {
    game.grid.iter().map(|cell| cell.value).collect()
}

fn flags(game: &Game) -> Vec<bool> {
    game.grid.iter().map(|cell| cell.initial).collect()
}

/// No two cells of a row, a column or a block hold the same value.
fn conflict_free(game: &Game) -> bool {
    let side = game.side_size;
    for i in 0..side * side {
        let (r, c) = game.coordinates(i);
        for j in game.neighbors(r, c) {
            if j != i && game.grid[i].value != 0 && game.grid[i].value == game.grid[j].value {
                return false;
            }
        }
    }
    true
}

#[test]
fn fill_completes_a_blank_grid() {
    for size in 1..=3usize {
        for _ in 0..5 {
            let mut game = Game::new(size);
            assert!(game.fill_rng(0));
            assert!(game.is_done());
            assert!(conflict_free(&game));
            assert_eq!(game.nb_empty(), 0);
            assert!(game.grid.iter().all(|cell| cell.initial));
            let side = (size * size) as u8;
            assert!(game.grid.iter().all(|cell| 1 <= cell.value && cell.value <= side));
        }
    }
}

#[test]
fn fill_draws_different_grids() {
    let mut first = Game::new(3);
    assert!(first.fill_rng(0));
    let mut differs = false;
    for _ in 0..20 {
        let mut next = Game::new(3);
        assert!(next.fill_rng(0));
        if values(&next) != values(&first) {
            differs = true;
        }
    }
    assert!(differs);
}

#[test]
fn fill_past_the_last_cell_changes_nothing() {
    let mut game = Game::new(2);
    game.do_move(1, 1, 3).unwrap();
    assert!(game.fill_rng(16));
    assert!(game.fill_rng(100));
    assert_eq!(game.nb_non_empty(), 1);
    assert_eq!(game.grid[5].value, 3);
    assert!(!game.grid[5].initial);
}

#[test]
fn fill_keeps_the_cells_before() {
    let mut game = Game::new(3);
    let start = pattern(3);
    for i in 0..30 {
        game.grid[i] = Cell {
            value: start.grid[i].value,
            initial: false,
        };
    }
    assert!(game.fill_rng(30));
    for i in 0..30 {
        assert_eq!(game.grid[i].value, start.grid[i].value);
        assert!(!game.grid[i].initial);
    }
    for i in 30..81 {
        assert!(game.grid[i].initial);
    }
    assert!(game.is_done());
    assert!(conflict_free(&game));
}

#[test]
fn fill_of_the_last_cell_is_forced() {
    let mut game = pattern(3);
    let held = game.grid[80].value;
    game.grid[80] = Cell {
        value: 0,
        initial: false,
    };
    assert!(game.fill_rng(80));
    assert_eq!(game.grid[80].value, held);
    assert!(game.grid[80].initial);
}

#[test]
fn fill_gives_up_where_nothing_fits() {
    let mut game = Game::new(2);
    for (i, value) in [1u8, 2, 3, 4, 1, 2, 3].iter().enumerate() {
        game.grid[i] = Cell {
            value: *value,
            initial: true,
        };
    }
    let before = values(&game);
    // The cell of row 1 and column 3 sees 1, 2 and 3 in its row and 4 above it.
    assert_eq!(game.valids(7), Vec::<u8>::new());
    assert!(!game.fill_rng(7));
    assert_eq!(values(&game), before);
    assert!(game.grid[7..].iter().all(|cell| cell.value == 0 && !cell.initial));
}

#[test]
fn fill_goes_back_over_the_cells_it_wrote() {
    // The last cell of row 1 repeats the 1 of its row, so column 3 holds 4
    // and 1 and still needs 2 and 3. Rows 2 and 3 share 2 and 4 between
    // columns 0 and 2, which leaves the last cell of one of them with a 2
    // that its row already holds. Every cell of row 2 has a candidate, and so
    // has the beginning of row 3: the fill only finds out at the end, tries
    // every other way, and takes back all it wrote.
    let mut game = Game::new(2);
    for (i, value) in [1u8, 2, 3, 4, 3, 4, 1, 1].iter().enumerate() {
        game.grid[i] = Cell {
            value: *value,
            initial: true,
        };
    }
    assert_eq!(game.valids(8).len(), 2);
    let before = values(&game);
    for _ in 0..10 {
        assert!(!game.fill_rng(8));
        assert_eq!(values(&game), before);
        assert!(game.grid[8..].iter().all(|cell| cell.value == 0 && !cell.initial));
        assert!(game.grid[..8].iter().all(|cell| cell.initial));
    }

    // With a 2 in place of the second 1 the two rows can be completed.
    game.grid[7].value = 2;
    assert!(game.fill_rng(8));
    assert!(game.is_done());
    assert!(conflict_free(&game));
    assert_eq!(values(&game)[..8], [1, 2, 3, 4, 3, 4, 1, 2]);
}

#[test]
fn nth_non_empty_counts_the_held_cells() {
    let mut game = Game::new(3);
    game.do_move(0, 3, 1).unwrap();
    game.do_move(2, 0, 2).unwrap();
    game.do_move(8, 8, 3).unwrap();
    assert_eq!(game.nth_non_empty(0), 3);
    assert_eq!(game.nth_non_empty(1), 18);
    assert_eq!(game.nth_non_empty(2), 80);
    let full = pattern(3);
    for k in 0..81 {
        assert_eq!(full.nth_non_empty(k), k);
    }
}

#[test]
fn take_clue_blanks_the_cell_and_hands_its_value_back() {
    let mut game = pattern(3);
    let held = game.grid[10].value;
    assert_eq!(game.take_clue(10), (10, held));
    assert_eq!(game.grid[10].value, 0);
    assert!(!game.grid[10].initial);
    assert_eq!(game.nb_non_empty(), 80);
    // Cell 10 no longer counts: the clue with ten clues before it is cell 11.
    let next = game.grid[11].value;
    assert_eq!(game.take_clue(10), (11, next));
    assert_eq!(game.nb_non_empty(), 79);
}

#[test]
fn settle_clue_puts_the_value_back_where_the_solver_failed() {
    let mut game = pattern(3);
    let (index, value) = game.take_clue(40);
    let without = values(&game);
    assert!(!game.settle_clue(index, value, true));
    assert_eq!(values(&game), without);
    assert!(game.settle_clue(index, value, false));
    assert_eq!(values(&game), values(&pattern(3)));
    assert!(game.grid[index].initial);

    let mut played = Game::new(3);
    played.do_move(0, 0, 5).unwrap();
    let (index, value) = played.take_clue(0);
    assert_eq!((index, value), (0, 5));
    assert!(played.settle_clue(index, value, false));
    assert_eq!(played.grid[0].value, 5);
    assert!(played.grid[0].initial);
}

#[test]
fn trial_copy_shares_nothing_and_selects_nothing() {
    let mut game = pattern(3);
    game.selected_index = Some(3);
    game.selected_value = Some(4);
    let mut copy = game.trial_copy();
    assert_eq!(copy.size, 3);
    assert_eq!(copy.side_size, 9);
    assert_eq!(copy.selected_index, None);
    assert_eq!(copy.selected_value, None);
    assert_eq!(values(&copy), values(&game));
    assert_eq!(flags(&copy), flags(&game));
    copy.grid[0].value = 0;
    assert_ne!(values(&copy), values(&game));
    assert_eq!(game.selected_index, Some(3));
}

#[test]
fn unfill_never_changes_a_value() {
    for _ in 0..10 {
        let mut game = Game::new(3);
        assert!(game.fill_rng(0));
        let solution = values(&game);
        game.unfill(Obvious);
        for (cell, &value) in game.grid.iter().zip(solution.iter()) {
            assert!(cell.value == 0 || cell.value == value);
            if cell.value == 0 {
                assert!(!cell.initial);
            } else {
                assert!(cell.initial);
            }
        }
        assert!(game.nb_non_empty() + 1 >= MIN_CLUES);
        assert!(game.nb_non_empty() < 81);
        assert!(conflict_free(&game));
    }
}

#[test]
fn unfill_leaves_a_puzzle_that_the_solver_completes() {
    for _ in 0..10 {
        let mut game = Game::new(3);
        assert!(game.fill_rng(0));
        let solution = values(&game);
        game.unfill(Obvious);
        let mut copy = game.trial_copy();
        assert!(Obvious.solve(&mut copy).is_ok());
        assert_eq!(values(&copy), solution);
    }
}

#[test]
fn unfill_below_the_floor_changes_nothing() {
    // A grid of 16 cells holds fewer values than the usual floor of 17.
    let mut game = pattern(2);
    game.unfill(Obvious);
    assert_eq!(values(&game), values(&pattern(2)));
    assert_eq!(flags(&game), flags(&pattern(2)));

    let mut sparse = Game::new(3);
    sparse.do_move(0, 0, 1).unwrap();
    sparse.unfill(Always);
    assert_eq!(sparse.nb_non_empty(), 1);
    assert!(!sparse.grid[0].initial);

    let mut full = pattern(3);
    assert_eq!(full.unfill_with(&Always, 82, 3), 0);
    assert_eq!(values(&full), values(&pattern(3)));
}

#[test]
fn unfill_without_an_attempt_changes_nothing() {
    let mut game = pattern(3);
    assert_eq!(game.unfill_with(&Always, 17, 0), 0);
    assert_eq!(values(&game), values(&pattern(3)));
    assert_eq!(game.unfill_with(&Obvious, 1, 0), 0);
    assert_eq!(values(&game), values(&pattern(3)));
}

#[test]
fn unfill_stops_after_the_solver_failed_often_enough() {
    let mut game = Game::new(3);
    let start = pattern(3);
    for i in 0..81 {
        game.grid[i] = Cell {
            value: start.grid[i].value,
            initial: false,
        };
    }
    assert_eq!(game.unfill_with(&Never, 17, 3), 3);
    assert_eq!(values(&game), values(&start));
    // Each value that was put back is now a given: at most one for each attempt.
    let givens = game.grid.iter().filter(|cell| cell.initial).count();
    assert!(1 <= givens && givens <= 3);

    let mut more = Game::new(3);
    for i in 0..81 {
        more.grid[i] = Cell {
            value: start.grid[i].value,
            initial: false,
        };
    }
    assert_eq!(more.unfill_with(&Never, 17, 200), 200);
    assert_eq!(values(&more), values(&start));
    let givens = more.grid.iter().filter(|cell| cell.initial).count();
    assert!(40 <= givens && givens <= 81);
}

#[test]
fn unfill_leaves_a_given_where_it_stops_above_the_floor() {
    for _ in 0..10 {
        let start = pattern(3);
        let mut game = Game::new(3);
        for i in 0..81 {
            game.grid[i] = Cell {
                value: start.grid[i].value,
                initial: false,
            };
        }
        game.unfill(Never);
        assert_eq!(values(&game), values(&start));
        assert_eq!(game.nb_non_empty(), 81);
        let givens = game.grid.iter().filter(|cell| cell.initial).count();
        assert!(1 <= givens && givens <= MAX_UNFILL_ATTEMPTS);

        let mut puzzle = Game::new(3);
        for i in 0..81 {
            puzzle.grid[i] = Cell {
                value: start.grid[i].value,
                initial: false,
            };
        }
        puzzle.unfill(Obvious);
        if puzzle.nb_non_empty() >= MIN_CLUES {
            assert!(puzzle
                .grid
                .iter()
                .zip(start.grid.iter())
                .any(|(cell, held)| cell.initial && cell.value == held.value));
        }
        assert!(puzzle.nb_non_empty() < 81);
    }
}

#[test]
fn unfill_goes_one_below_the_floor_where_the_solver_always_agrees() {
    for floor in [1usize, 17, 50, 81] {
        let mut game = pattern(3);
        assert_eq!(game.unfill_with(&Always, floor, 3), 0);
        assert_eq!(game.nb_non_empty(), floor - 1);
        for (cell, given) in game.grid.iter().zip(pattern(3).grid.iter()) {
            assert!(cell.value == 0 || cell.value == given.value);
        }
    }
}

#[test]
fn unfill_does_not_hand_the_game_to_the_solver() {
    // `Always` scribbles over the grid it is given: the game must not notice.
    let mut game = pattern(3);
    game.selected_index = Some(7);
    game.selected_value = Some(2);
    assert_eq!(game.unfill_with(&Always, 60, 3), 0);
    assert_eq!(game.nb_non_empty(), 59);
    assert!(conflict_free(&game));
    assert_eq!(game.selected_index, Some(7));
    assert_eq!(game.selected_value, Some(2));
    assert_eq!(game.size, 3);
    assert_eq!(game.side_size, 9);
}

#[test]
fn unfill_with_the_solver_of_forced_values_spends_its_attempts() {
    for _ in 0..10 {
        let mut game = Game::new(3);
        assert!(game.fill_rng(0));
        let spent = game.unfill_with(&Obvious, 17, 5);
        assert!(spent <= 5);
        if game.nb_non_empty() >= 17 {
            assert_eq!(spent, 5);
        }
        let mut copy = game.trial_copy();
        assert!(Obvious.solve(&mut copy).is_ok());
    }
}

#[test]
fn usual_settings() {
    assert_eq!(MIN_CLUES, 17);
    assert_eq!(MAX_UNFILL_ATTEMPTS, 3);
}

#[test]
fn new_random_game_makes_a_puzzle() {
    for _ in 0..5 {
        let mut game = Game::new(3);
        game.do_move(0, 0, 1).unwrap();
        game.selected_index = Some(2);
        game.new_random_game();
        assert_eq!(game.size, 3);
        assert_eq!(game.side_size, 9);
        assert_eq!(game.grid.len(), 81);
        assert_eq!(game.selected_index, Some(2));
        assert!(game.nb_non_empty() >= 16);
        assert!(game.nb_non_empty() < 81);
        assert!(conflict_free(&game));
        assert!(game
            .grid
            .iter()
            .all(|cell| cell.initial == (cell.value != 0)));
        let mut copy = game.trial_copy();
        assert!(Obvious.solve(&mut copy).is_ok());
        assert!(copy.is_done());
    }
}

#[test]
fn new_random_game_on_a_small_grid_is_a_complete_grid() {
    for size in 1..=2usize {
        let mut game = Game::new(size);
        game.new_random_game();
        assert!(game.is_done());
        assert!(conflict_free(&game));
    }
}
