use sudocurs::errors::GameError;
use sudocurs::game::Game;
use sudocurs::screen::cell_under;
use sudocurs::screen::menu_click;
use sudocurs::screen::Screen;
use sudocurs::screen::BOX_SIZE;
use sudocurs::screen::OFFSET_X;
use sudocurs::screen::OFFSET_Y;
use sudocurs::traits::ScreenOutcome;

#[test]
fn layout() {
    assert_eq!(OFFSET_X, 40);
    assert_eq!(OFFSET_Y, 40);
    assert_eq!(BOX_SIZE, 35);
}

#[test]
fn cell_under_a_pixel() {
    assert_eq!(cell_under(40, 40, 9), Some((0, 0)));
    assert_eq!(cell_under(74, 74, 9), Some((0, 0)));
    assert_eq!(cell_under(75, 40, 9), Some((0, 1)));
    assert_eq!(cell_under(40, 75, 9), Some((1, 0)));
    assert_eq!(cell_under(200, 100, 9), Some((1, 4)));
    assert_eq!(cell_under(354, 354, 9), Some((8, 8)));
    assert_eq!(cell_under(355, 354, 9), None);
    assert_eq!(cell_under(354, 355, 9), None);
    assert_eq!(cell_under(39, 40, 9), None);
    assert_eq!(cell_under(40, 39, 9), None);
    assert_eq!(cell_under(-1, -1, 9), None);
    assert_eq!(cell_under(i32::MIN, i32::MAX, 9), None);
    assert_eq!(cell_under(40, 40, 0), None);
    assert_eq!(cell_under(599, 40, 16), Some((0, 15)));
    assert_eq!(cell_under(600, 40, 16), None);
    assert_eq!(cell_under(7914, 7914, 225), Some((224, 224)));
}

#[test]
fn click_outside_the_grid_takes_the_selection_away() {
    let mut game = Game::new(3);
    assert_eq!(game.click(0, 0), (ScreenOutcome::Unchanged, None));
    game.selected_index = Some(3);
    game.selected_value = Some(0);
    assert_eq!(game.click(0, 0), (ScreenOutcome::Updated, None));
    assert_eq!(game.selected_index, None);
    assert_eq!(game.selected_value, None);
    assert_eq!(game.click(1000, 50), (ScreenOutcome::Unchanged, None));
    assert_eq!(game.nb_non_empty(), 0);
}

#[test]
fn click_on_a_cell_selects_it() {
    let mut game = Game::new(3);
    game.do_move(1, 4, 6).unwrap();
    assert_eq!(game.click(200, 100), (ScreenOutcome::Updated, None));
    assert_eq!(game.selected_index, Some(13));
    assert_eq!(game.selected_value, Some(6));
    assert_eq!(game.nb_non_empty(), 1);
}

#[test]
fn click_on_an_empty_cell_writes_the_selected_value() {
    let mut game = Game::new(3);
    game.do_move(1, 4, 6).unwrap();
    game.click(200, 100);
    // Row 5 and column 0 are free of 6.
    assert_eq!(game.click(40, 215), (ScreenOutcome::Updated, None));
    assert_eq!(game.grid[45].value, 6);
    assert!(!game.grid[45].initial);
    // The cell is now selected, shown with what it held before the click.
    assert_eq!(game.selected_index, Some(45));
    assert_eq!(game.selected_value, Some(0));
}

#[test]
fn click_hands_back_why_a_move_was_refused() {
    let mut game = Game::new(3);
    game.do_move(1, 4, 6).unwrap();
    game.click(200, 100);
    // Row 1 already holds the 6.
    assert_eq!(
        game.click(40, 75),
        (ScreenOutcome::Updated, Some(GameError::InvalidValue))
    );
    assert_eq!(game.grid[9].value, 0);
    assert_eq!(game.selected_index, Some(9));
    assert_eq!(game.selected_value, Some(0));
    // With an empty cell selected, the next click on an empty cell asks for
    // the value 0.
    assert_eq!(
        game.click(75, 75),
        (ScreenOutcome::Updated, Some(GameError::IllegalValue))
    );
    assert_eq!(game.selected_index, Some(10));
    assert_eq!(game.nb_non_empty(), 1);
}

#[test]
fn click_on_a_held_cell_moves_nothing() {
    let mut game = Game::new(3);
    game.do_move(0, 0, 1).unwrap();
    game.do_move(0, 1, 2).unwrap();
    game.click(40, 40);
    assert_eq!(game.click(75, 40), (ScreenOutcome::Updated, None));
    assert_eq!(game.grid[1].value, 2);
    assert_eq!(game.selected_index, Some(1));
    assert_eq!(game.selected_value, Some(2));
}

#[test]
fn menu_clicks() {
    assert_eq!(menu_click(true, true, false, false), ScreenOutcome::Resume);
    assert_eq!(menu_click(true, true, true, true), ScreenOutcome::Resume);
    assert_eq!(menu_click(false, true, false, false), ScreenOutcome::Unchanged);
    assert_eq!(menu_click(false, true, true, false), ScreenOutcome::NewGame);
    assert_eq!(menu_click(true, false, true, true), ScreenOutcome::NewGame);
    assert_eq!(menu_click(false, false, false, true), ScreenOutcome::Exit);
    assert_eq!(menu_click(true, false, false, true), ScreenOutcome::Exit);
    assert_eq!(menu_click(true, false, false, false), ScreenOutcome::Unchanged);
    assert_eq!(menu_click(false, false, false, false), ScreenOutcome::Unchanged);
}

#[test]
fn screens_follow_outcomes() {
    assert_eq!(Screen::default(), Screen::Main);
    assert_eq!(Screen::Main.after(ScreenOutcome::Resume), Screen::Game);
    assert_eq!(Screen::Main.after(ScreenOutcome::NewGame), Screen::Game);
    assert_eq!(Screen::Main.after(ScreenOutcome::Updated), Screen::Main);
    assert_eq!(Screen::Main.after(ScreenOutcome::Unchanged), Screen::Main);
    assert_eq!(Screen::Main.after(ScreenOutcome::Exit), Screen::Main);
    assert_eq!(Screen::Game.after(ScreenOutcome::Updated), Screen::Game);
    assert_eq!(Screen::Game.after(ScreenOutcome::Unchanged), Screen::Game);
    assert_eq!(Screen::Game.after(ScreenOutcome::NewGame), Screen::Game);
}

#[test]
fn game_is_kept_for_the_next_launch() {
    assert!(Screen::Game.keeps_game(false));
    assert!(!Screen::Game.keeps_game(true));
    assert!(!Screen::Main.keeps_game(false));
    assert!(!Screen::Main.keeps_game(true));
}
