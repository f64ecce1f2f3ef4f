use sudocurs::errors::SolverError;
use sudocurs::game::Cell;
use sudocurs::game::Game;
use sudocurs::solver::Obvious;
use sudocurs::solver::Solver;

fn complete_grid() -> Game {
    let mut game = Game::new(3);
    for r in 0..9usize {
        for c in 0..9usize {
            let value = ((3 * (r % 3) + r / 3 + c) % 9 + 1) as u8;
            game.grid[r * 9 + c] = Cell {
                value,
                initial: true,
            };
        }
    }
    game
}

fn cell_values(game: &Game) -> Vec<u8> {
    game.grid.iter().map(|cell| cell.value).collect()
}

#[test]
fn obvious_leaves_a_complete_grid_alone() {
    let mut game = complete_grid();
    assert_eq!(Obvious.solve(&mut game), Ok(()));
    assert_eq!(cell_values(&game), cell_values(&complete_grid()));
    assert!(game.grid.iter().all(|cell| cell.initial));
}

#[test]
fn obvious_writes_the_forced_values() {
    let mut game = complete_grid();
    for i in [0usize, 13, 26, 40, 57, 80] {
        game.grid[i] = Cell {
            value: 0,
            initial: false,
        };
    }
    assert_eq!(Obvious.solve(&mut game), Ok(()));
    assert!(game.is_done());
    assert_eq!(cell_values(&game), cell_values(&complete_grid()));
    for (i, cell) in game.grid.iter().enumerate() {
        assert_eq!(cell.initial, ![0usize, 13, 26, 40, 57, 80].contains(&i));
    }
}

#[test]
fn obvious_gives_up_on_a_blank_grid() {
    let mut game = Game::new(3);
    assert_eq!(Obvious.solve(&mut game), Err(SolverError::FailedToSolve));
    assert_eq!(game.nb_non_empty(), 0);
}

#[test]
fn obvious_keeps_what_it_wrote_before_it_gave_up() {
    // Row 0 lacks its last value only, which is forced; nothing else is.
    let mut game = Game::new(3);
    for c in 0..8usize {
        game.grid[c] = Cell {
            value: (c + 1) as u8,
            initial: true,
        };
    }
    assert_eq!(Obvious.solve(&mut game), Err(SolverError::FailedToSolve));
    assert_eq!(game.grid[8].value, 9);
    assert!(!game.grid[8].initial);
    assert_eq!(game.nb_non_empty(), 9);
}

#[test]
fn obvious_takes_the_first_forced_cell_first() {
    // Two cells of a grid of 16 are forced: the one of lower index is written
    // first, and then the other is no longer empty with one candidate only if
    // the first took its value.
    let mut game = Game::new(2);
    for (i, value) in [1u8, 2, 3, 0, 3, 4, 0, 0].iter().enumerate() {
        game.grid[i].value = *value;
    }
    // Cell 3 is forced to 4. Cell 6 may take 1 or 2, cell 7 may take 1 or 2:
    // once cell 3 holds 4, cell 7 still has 1 and 2, so the solver stops.
    assert_eq!(Obvious.solve(&mut game), Err(SolverError::FailedToSolve));
    assert_eq!(game.grid[3].value, 4);
    assert_eq!(game.grid[6].value, 0);
    assert_eq!(game.grid[7].value, 0);
}

#[test]
fn obvious_fails_on_a_cell_without_candidates() {
    let mut game = Game::new(2);
    for (i, value) in [1u8, 2, 3, 4, 1, 2, 3].iter().enumerate() {
        game.grid[i].value = *value;
    }
    assert_eq!(Obvious.solve(&mut game), Err(SolverError::FailedToSolve));
    assert_eq!(game.grid[7].value, 0);
}

#[test]
fn obvious_solves_the_smallest_grid() {
    let mut game = Game::new(1);
    assert_eq!(Obvious.solve(&mut game), Ok(()));
    assert_eq!(game.grid[0].value, 1);
    assert!(!game.grid[0].initial);
}
