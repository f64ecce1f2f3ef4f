use sudocurs::errors::GameError;
use sudocurs::game::Cell;
use sudocurs::game::Game;

fn sorted(mut values: Vec<u8>) -> Vec<u8> {
    values.sort();
    values
}

/// A complete grid of block size `size`: each row is the first row shifted.
fn shifted(size: usize) -> Game {
    let mut game = Game::new(size);
    let side = size * size;
    for r in 0..side {
        for c in 0..side {
            let value = ((size * (r % size) + r / size + c) % side + 1) as u8;
            game.grid[r * side + c] = Cell {
                value,
                initial: true,
            };
        }
    }
    game
}

#[test]
fn test_test() {
    assert_eq!(true, true);
}

#[test]
fn test_valids() {
    let mut game = Game::new(3);
    let mut valids = game.valids(0);
    valids.sort();
    assert_eq!(valids, (1..=9).collect::<Vec<u8>>());

    game.do_move(0, 0, 9).unwrap();
    let mut valids = game.valids(0);
    valids.sort();
    assert_eq!(valids, (1..=8).collect::<Vec<u8>>());
}

#[test]
fn test_nb_empty() {
    let mut game = Game::new(3);
    assert_eq!(game.nb_empty(), 81);
    game.grid = vec![
        Cell {
            value: 1,
            initial: false
        };
        81
    ];
    assert_eq!(game.nb_empty(), 0);
}

#[test]
fn test_nb_non_empty() {
    let mut game = Game::new(3);
    assert_eq!(game.nb_non_empty(), 0);
    game.grid = vec![
        Cell {
            value: 1,
            initial: false
        };
        81
    ];
    assert_eq!(game.nb_non_empty(), 81);
}

#[test]
fn test_coordinates() {
    let game = Game::new(3);
    assert_eq!(game.coordinates(0), (0, 0));
    assert_eq!(game.coordinates(9), (1, 0));
}

#[test]
fn new_game_is_blank() {
    for size in 1..=5usize {
        let game = Game::new(size);
        let side = size * size;
        assert_eq!(game.size, size);
        assert_eq!(game.side_size, side);
        assert_eq!(game.grid.len(), side * side);
        assert!(game.grid.iter().all(|cell| cell.value == 0 && !cell.initial));
        assert_eq!(game.selected_index, None);
        assert_eq!(game.selected_value, None);
    }
}

#[test]
fn largest_game_has_byte_values() {
    let game = Game::new(15);
    assert_eq!(game.side_size, 225);
    assert_eq!(game.grid.len(), 50625);
    assert_eq!(sorted(game.valids(50624)), (1..=225).collect::<Vec<u8>>());
}

#[test]
fn clear_blanks_every_cell_and_keeps_the_selection() {
    let mut game = shifted(3);
    game.selected_index = Some(4);
    game.selected_value = Some(7);
    game.clear();
    assert_eq!(game.grid.len(), 81);
    assert!(game.grid.iter().all(|cell| cell.value == 0 && !cell.initial));
    assert_eq!(game.size, 3);
    assert_eq!(game.side_size, 9);
    assert_eq!(game.selected_index, Some(4));
    assert_eq!(game.selected_value, Some(7));
}

#[test]
fn counts_add_up() {
    let mut game = Game::new(3);
    game.do_move(0, 0, 1).unwrap();
    game.do_move(4, 4, 2).unwrap();
    game.do_move(8, 8, 3).unwrap();
    assert_eq!(game.nb_non_empty(), 3);
    assert_eq!(game.nb_empty(), 78);
    assert_eq!(game.nb_empty() + game.nb_non_empty(), game.grid.len());
}

#[test]
fn empties_are_listed_in_order() {
    let mut game = Game::new(2);
    assert_eq!(game._empties(), (0..16).collect::<Vec<usize>>());
    game.do_move(0, 0, 1).unwrap();
    game.do_move(1, 2, 2).unwrap();
    game.do_move(3, 3, 3).unwrap();
    assert_eq!(
        game._empties(),
        vec![1, 2, 3, 4, 5, 7, 8, 9, 10, 11, 12, 13, 14]
    );
    assert_eq!(shifted(2)._empties(), Vec::<usize>::new());
}

#[test]
fn index_and_coordinates_undo_each_other() {
    let game = Game::new(3);
    assert_eq!(game.index(0, 0), 0);
    assert_eq!(game.index(0, 8), 8);
    assert_eq!(game.index(1, 0), 9);
    assert_eq!(game.index(4, 7), 43);
    assert_eq!(game.index(8, 8), 80);
    assert_eq!(game.coordinates(43), (4, 7));
    assert_eq!(game.coordinates(80), (8, 8));
    for i in 0..81 {
        let (r, c) = game.coordinates(i);
        assert_eq!(game.index(r, c), i);
    }
    let wide = Game::new(4);
    assert_eq!(wide.index(3, 5), 53);
    assert_eq!(wide.coordinates(53), (3, 5));
}

#[test]
fn rows_columns_and_blocks() {
    let game = Game::new(3);
    assert_eq!(game.row(0), vec![0, 1, 2, 3, 4, 5, 6, 7, 8]);
    assert_eq!(game.row(4), vec![36, 37, 38, 39, 40, 41, 42, 43, 44]);
    assert_eq!(game.column(0), vec![0, 9, 18, 27, 36, 45, 54, 63, 72]);
    assert_eq!(game.column(7), vec![7, 16, 25, 34, 43, 52, 61, 70, 79]);
    assert_eq!(game.group(0, 0), vec![0, 1, 2, 9, 10, 11, 18, 19, 20]);
    assert_eq!(game.group(4, 7), vec![33, 34, 35, 42, 43, 44, 51, 52, 53]);
    assert_eq!(game.group(5, 8), game.group(3, 6));
    assert_eq!(game.group(8, 8), vec![60, 61, 62, 69, 70, 71, 78, 79, 80]);
}

#[test]
fn neighbors_are_column_then_row_then_block() {
    let game = Game::new(3);
    let neighbors = game.neighbors(4, 7);
    assert_eq!(neighbors.len(), 27);
    assert_eq!(neighbors[..9], game.column(7)[..]);
    assert_eq!(neighbors[9..18], game.row(4)[..]);
    assert_eq!(neighbors[18..], game.group(4, 7)[..]);
    assert_eq!(neighbors.iter().filter(|&&i| i == 43).count(), 3);

    let small = Game::new(2);
    assert_eq!(
        small.neighbors(1, 2),
        vec![2, 6, 10, 14, 4, 5, 6, 7, 2, 3, 6, 7]
    );
}

#[test]
fn valids_leave_out_row_column_and_block() {
    let mut game = Game::new(3);
    game.do_move(0, 0, 1).unwrap();
    game.do_move(0, 5, 2).unwrap();
    game.do_move(7, 1, 3).unwrap();
    game.do_move(2, 2, 4).unwrap();
    game.do_move(5, 5, 5).unwrap();
    assert_eq!(sorted(game.valids(game.index(0, 1))), vec![5, 6, 7, 8, 9]);
    assert_eq!(sorted(game.valids(game.index(5, 0))), vec![2, 3, 4, 6, 7, 8, 9]);
    assert_eq!(
        sorted(game.valids(game.index(7, 8))),
        vec![1, 2, 4, 5, 6, 7, 8, 9]
    );
    assert_eq!(
        sorted(game.valids(game.index(8, 8))),
        vec![1, 2, 3, 4, 5, 6, 7, 8, 9]
    );
}

#[test]
fn valids_have_no_value_twice() {
    let mut game = Game::new(3);
    game.do_move(3, 3, 6).unwrap();
    for i in 0..81 {
        let values = sorted(game.valids(i));
        let mut seen = values.clone();
        seen.dedup();
        assert_eq!(values, seen);
        assert!(values.iter().all(|&v| (1..=9).contains(&v)));
    }
}

#[test]
fn valids_of_a_hemmed_in_cell_are_empty() {
    let mut game = Game::new(2);
    game.do_move(0, 0, 1).unwrap();
    game.do_move(0, 1, 2).unwrap();
    game.do_move(1, 3, 3).unwrap();
    game.do_move(2, 2, 4).unwrap();
    assert_eq!(game.valids(game.index(0, 2)), Vec::<u8>::new());
    assert_eq!(game.valids(game.index(0, 3)), vec![4]);
}

#[test]
fn blank_grid_allows_every_value_everywhere() {
    for size in 1..=4usize {
        let game = Game::new(size);
        let side = (size * size) as u8;
        for i in 0..game.grid.len() {
            assert_eq!(sorted(game.valids(i)), (1..=side).collect::<Vec<u8>>());
        }
    }
}

#[test]
fn accepted_move_takes_the_value_from_every_neighbor() {
    let mut game = Game::new(3);
    game.do_move(4, 7, 6).unwrap();
    for i in game.neighbors(4, 7) {
        assert!(!game.valids(i).contains(&6));
    }
    assert!(game.valids(game.index(0, 0)).contains(&6));
}

#[test]
fn first_moves_of_a_game() {
    let mut game = Game::new(3);
    assert_eq!(game.do_move(0, 0, 9), Ok(()));
    assert_eq!(sorted(game.valids(game.index(0, 0))), vec![1, 2, 3, 4, 5, 6, 7, 8]);
    assert!(!game.valids(game.index(0, 1)).contains(&9));
    assert_eq!(game.do_move(0, 0, 9), Err(GameError::NonEmptyCell));
    assert_eq!(game.do_move(0, 1, 9), Err(GameError::InvalidValue));
}

#[test]
fn move_writes_a_played_value() {
    let mut game = Game::new(3);
    game.selected_index = Some(3);
    game.selected_value = Some(5);
    assert_eq!(game.do_move(2, 5, 7), Ok(()));
    for (i, cell) in game.grid.iter().enumerate() {
        if i == 23 {
            assert_eq!(cell.value, 7);
            assert!(!cell.initial);
        } else {
            assert_eq!(cell.value, 0);
            assert!(!cell.initial);
        }
    }
    assert_eq!(game.selected_index, Some(3));
    assert_eq!(game.selected_value, Some(5));
}

#[test]
fn move_outside_the_grid_is_refused() {
    let mut game = Game::new(3);
    assert_eq!(game.do_move(9, 0, 1), Err(GameError::IllegalPosition));
    assert_eq!(game.do_move(0, 9, 1), Err(GameError::IllegalPosition));
    assert_eq!(game.do_move(usize::MAX, 3, 1), Err(GameError::IllegalPosition));
    assert_eq!(game.do_move(9, 9, 0), Err(GameError::IllegalPosition));
    assert_eq!(game.nb_non_empty(), 0);
}

#[test]
fn move_of_a_value_out_of_range_is_refused() {
    let mut game = Game::new(3);
    assert_eq!(game.do_move(0, 0, 0), Err(GameError::IllegalValue));
    assert_eq!(game.do_move(0, 0, 10), Err(GameError::IllegalValue));
    assert_eq!(game.do_move(0, 0, 255), Err(GameError::IllegalValue));
    assert_eq!(game.nb_non_empty(), 0);
    let mut wide = Game::new(4);
    assert_eq!(wide.do_move(0, 0, 16), Ok(()));
    assert_eq!(wide.do_move(0, 1, 17), Err(GameError::IllegalValue));
}

#[test]
fn move_into_a_held_cell_is_refused_whatever_the_value() {
    let mut game = Game::new(3);
    game.do_move(3, 3, 4).unwrap();
    for value in 1..=9u8 {
        assert_eq!(game.do_move(3, 3, value), Err(GameError::NonEmptyCell));
    }
    assert_eq!(game.grid[30].value, 4);
    // The value is looked at before the cell.
    assert_eq!(game.do_move(3, 3, 0), Err(GameError::IllegalValue));
    game.grid[40] = Cell {
        value: 2,
        initial: true,
    };
    assert_eq!(game.do_move(4, 4, 5), Err(GameError::NonEmptyCell));
    assert!(game.grid[40].initial);
}

#[test]
fn move_of_a_value_held_nearby_is_refused() {
    let mut game = Game::new(3);
    game.do_move(4, 4, 5).unwrap();
    assert_eq!(game.do_move(4, 0, 5), Err(GameError::InvalidValue));
    assert_eq!(game.do_move(0, 4, 5), Err(GameError::InvalidValue));
    assert_eq!(game.do_move(3, 3, 5), Err(GameError::InvalidValue));
    assert_eq!(game.do_move(5, 5, 5), Err(GameError::InvalidValue));
    assert_eq!(game.nb_non_empty(), 1);
    assert_eq!(game.do_move(0, 0, 5), Ok(()));
    assert_eq!(game.nb_non_empty(), 2);
}

#[test]
fn complete_grids_are_done() {
    for size in 1..=4usize {
        assert!(shifted(size).is_done());
    }
}

#[test]
fn grid_with_an_empty_cell_is_not_done() {
    assert!(!Game::new(3).is_done());
    for i in [0usize, 40, 80] {
        let mut game = shifted(3);
        game.grid[i] = Cell {
            value: 0,
            initial: false,
        };
        assert!(!game.is_done());
    }
}

#[test]
fn grid_with_a_value_twice_is_not_done() {
    let mut game = shifted(3);
    // Row 0 is 1 to 9: the 2 becomes a second 1.
    game.grid[1].value = 1;
    assert!(!game.is_done());

    // Every row and every column is in order, but the blocks are not.
    let mut latin = Game::new(3);
    for r in 0..9 {
        for c in 0..9 {
            latin.grid[r * 9 + c].value = ((r + c) % 9 + 1) as u8;
        }
    }
    assert!(!latin.is_done());

    // Every row and every block is in order, but the columns are not.
    let mut rows = shifted(3);
    let first: Vec<Cell> = rows.grid[0..9].to_vec();
    for c in 0..9 {
        rows.grid[27 + c] = first[(c + 3) % 9];
    }
    assert!(!rows.is_done());
}

#[test]
fn cells_compare_by_value() {
    let given = Cell {
        value: 4,
        initial: true,
    };
    let played = Cell {
        value: 4,
        initial: false,
    };
    let other = Cell {
        value: 5,
        initial: true,
    };
    assert!(given == played);
    assert!(given != other);
    assert!(given == 4u8);
    assert!(given != 0u8);
    assert!(
        Cell {
            value: 0,
            initial: false
        } == 0u8
    );
}
