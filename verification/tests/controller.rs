use minesweeper::args::{Action, Args, Difficulty};
use minesweeper::board::Pos;
use minesweeper::cell::{CellType, DETONATED};
use minesweeper::config::Config;
use minesweeper::controller::{App, Key, Signal};
use minesweeper::game_state::{GameState, Screen};

fn press(app: &mut App, keys: &[Key]) {
    for key in keys {
        assert_eq!(app.key_handler(*key), Signal::Render);
    }
}

/// A 3x1 game with one mine at the right end and the cursor at the left.
fn small_game() -> App {
    let mut app = App::new(Some(Difficulty::Custom { width: 3, height: 1, mines: 1 }));
    press(&mut app, &[Key::Left]);
    assert_eq!(app.board.cur, Pos::new(0, 0));
    assert!(app.board.place_mine(Pos::new(2, 0)));
    app
}

#[test]
fn difficulty_presets() {
    assert_eq!(Difficulty::Easy.config(), (9, 9, 10));
    assert_eq!(Difficulty::Medium.config(), (16, 16, 40));
    assert_eq!(Difficulty::Hard.config(), (30, 16, 99));
    assert_eq!(Difficulty::Custom { width: 7, height: 5, mines: 3 }.config(), (7, 5, 3));
}

#[test]
fn defaults() {
    assert_eq!(Difficulty::default(), Difficulty::Medium);
    assert_eq!(Action::default(), Action::Play);
    assert_eq!(Args::default(), Args { diff: None, action: Action::Play });
    assert_eq!(Config::default(), Config { default_difficulty: None });
    assert_eq!(Screen::default(), Screen::DiffPicker);
}

#[test]
fn only_playing_is_playing() {
    assert!(GameState::Playing.is_playing());
    assert!(!GameState::GameOver.is_playing());
    assert!(!GameState::Win.is_playing());
}

#[test]
fn starts_in_the_game_when_a_difficulty_is_given() {
    let app = App::new(Some(Difficulty::Hard));
    assert_eq!(app.screen, Screen::Game);
    assert_eq!(app.state, GameState::Playing);
    assert_eq!(app.board.size, Pos::new(30, 16));
    assert_eq!(app.board.mines, 99);
    assert_eq!(app.picker_state, 0);
}

#[test]
fn starts_in_the_picker_without_a_difficulty() {
    let app = App::new(None);
    assert_eq!(app.screen, Screen::DiffPicker);
    assert_eq!(app.state, GameState::Playing);
    assert!(app.board.is_empty());
}

#[test]
fn arrows_and_letters_move_the_cursor() {
    let mut app = App::new(Some(Difficulty::Easy));
    assert_eq!(app.board.cur, Pos::new(4, 4));
    press(&mut app, &[Key::Up]);
    assert_eq!(app.board.cur, Pos::new(4, 3));
    press(&mut app, &[Key::Char('k')]);
    assert_eq!(app.board.cur, Pos::new(4, 2));
    press(&mut app, &[Key::Left]);
    assert_eq!(app.board.cur, Pos::new(3, 2));
    press(&mut app, &[Key::Char('h')]);
    assert_eq!(app.board.cur, Pos::new(2, 2));
    press(&mut app, &[Key::Down]);
    assert_eq!(app.board.cur, Pos::new(2, 3));
    press(&mut app, &[Key::Char('j')]);
    assert_eq!(app.board.cur, Pos::new(2, 4));
    press(&mut app, &[Key::Right]);
    assert_eq!(app.board.cur, Pos::new(3, 4));
    press(&mut app, &[Key::Char('l')]);
    assert_eq!(app.board.cur, Pos::new(4, 4));
    press(&mut app, &[Key::Up, Key::Left, Key::Char('c')]);
    assert_eq!(app.board.cur, Pos::new(4, 4));
}

#[test]
fn unknown_keys_are_ignored() {
    let mut app = App::new(Some(Difficulty::Easy));
    assert_eq!(app.key_handler(Key::Other), Signal::Ignored);
    assert_eq!(app.key_handler(Key::Char('x')), Signal::Ignored);
    assert_eq!(app.screen, Screen::Game);
    assert_eq!(app.board.cur, Pos::new(4, 4));
    assert!(!app.board.generated);
}

#[test]
fn escape_and_q_leave_from_every_screen() {
    for key in [Key::Esc, Key::Char('q')] {
        let mut app = App::new(Some(Difficulty::Easy));
        assert_eq!(app.key_handler(key), Signal::Exit);
        press(&mut app, &[Key::Char('i')]);
        assert_eq!(app.key_handler(key), Signal::Exit);
        let mut app = App::new(None);
        assert_eq!(app.key_handler(key), Signal::Exit);
    }
}

#[test]
fn i_toggles_the_help_and_keeps_the_game() {
    let mut app = small_game();
    press(&mut app, &[Key::Enter, Key::Char('i')]);
    assert_eq!(app.screen, Screen::Help);
    assert_eq!(app.key_handler(Key::Enter), Signal::Ignored);
    assert_eq!(app.key_handler(Key::Up), Signal::Ignored);
    press(&mut app, &[Key::Char('i')]);
    assert_eq!(app.screen, Screen::Game);
    assert_eq!(app.state, GameState::Playing);
    assert_eq!(app.board.rev, 2);
}

#[test]
fn enter_and_d_reveal() {
    let mut app = small_game();
    press(&mut app, &[Key::Right, Key::Enter]);
    assert_eq!(app.board.rev, 1);
    assert!(app.board.cells[1].is_visible());
    press(&mut app, &[Key::Left, Key::Char('d')]);
    assert_eq!(app.board.rev, 2);
    assert!(app.board.cells[0].is_visible());
    assert_eq!(app.state, GameState::Playing);
}

#[test]
fn stepping_on_a_mine_ends_the_game_and_shows_the_mines() {
    let mut app = small_game();
    press(&mut app, &[Key::Char('f'), Key::Right, Key::Right, Key::Enter]);
    assert_eq!(app.state, GameState::GameOver);
    assert_eq!(app.board.cells[2].cell_type, CellType::Visible);
    assert_eq!(app.board.cells[2].value, DETONATED);
    assert_eq!(app.board.cells[0].cell_type, CellType::WrongFlag);

    assert_eq!(app.key_handler(Key::Enter), Signal::Ignored);
    assert_eq!(app.key_handler(Key::Char('d')), Signal::Ignored);
    assert_eq!(app.key_handler(Key::Char('f')), Signal::Ignored);
    assert_eq!(app.state, GameState::GameOver);
    press(&mut app, &[Key::Left]);
    assert_eq!(app.board.cur, Pos::new(1, 0));
}

#[test]
fn opening_the_last_safe_cell_wins() {
    let mut app = small_game();
    press(&mut app, &[Key::Right, Key::Right, Key::Char('f'), Key::Left, Key::Left]);
    assert_eq!(app.state, GameState::Playing);
    press(&mut app, &[Key::Enter]);
    assert_eq!(app.board.rev, 2);
    assert_eq!(app.state, GameState::Win);
    assert_eq!(app.key_handler(Key::Char('f')), Signal::Ignored);
    assert_eq!(app.key_handler(Key::Enter), Signal::Ignored);
    assert_eq!(app.state, GameState::Win);
}

#[test]
fn flagging_the_last_mine_wins() {
    let mut app = small_game();
    press(&mut app, &[Key::Enter, Key::Right, Key::Right]);
    assert_eq!(app.board.rev, 2);
    assert_eq!(app.state, GameState::Playing);
    press(&mut app, &[Key::Char('f')]);
    assert_eq!(app.state, GameState::Win);
}

#[test]
fn chord_next_to_an_unflagged_mine_loses() {
    let mut app = small_game();
    press(&mut app, &[Key::Enter, Key::Right, Key::Enter]);
    assert_eq!(app.state, GameState::GameOver);
    assert_eq!(app.board.cells[2].value, DETONATED);
    assert_eq!(app.board.cells[2].cell_type, CellType::Visible);
}

#[test]
fn r_starts_anew_after_a_loss_and_after_a_win() {
    let mut app = small_game();
    press(&mut app, &[Key::Right, Key::Right, Key::Enter]);
    assert_eq!(app.state, GameState::GameOver);
    press(&mut app, &[Key::Char('r')]);
    assert_eq!(app.state, GameState::Playing);
    assert_eq!(app.board.rev, 0);
    assert_eq!(app.board.flags, 0);
    assert!(!app.board.generated);
    assert_eq!(app.board.size, Pos::new(3, 1));
    assert_eq!(app.board.mines, 1);
    assert!(app.board.cells.iter().all(|c| c.value == 0 && c.cell_type == CellType::Hidden));

    let mut app = small_game();
    press(&mut app, &[Key::Enter, Key::Right, Key::Right, Key::Char('f')]);
    assert_eq!(app.state, GameState::Win);
    press(&mut app, &[Key::Char('r')]);
    assert_eq!(app.state, GameState::Playing);
    assert_eq!(app.board.rev, 0);
}

#[test]
fn tab_opens_the_picker_and_enter_starts_a_new_game() {
    let mut app = small_game();
    press(&mut app, &[Key::Right, Key::Right, Key::Enter]);
    assert_eq!(app.state, GameState::GameOver);
    press(&mut app, &[Key::Tab]);
    assert_eq!(app.screen, Screen::DiffPicker);
    press(&mut app, &[Key::Down, Key::Enter]);
    assert_eq!(app.screen, Screen::Game);
    assert_eq!(app.state, GameState::Playing);
    assert_eq!(app.board.size, Pos::new(16, 16));
    assert_eq!(app.board.mines, 40);
    assert_eq!(app.board.rev, 0);
    assert!(!app.board.generated);
}

#[test]
fn picker_moves_between_three_entries() {
    let mut app = App::new(None);
    press(&mut app, &[Key::Up]);
    assert_eq!(app.picker_state, 0);
    press(&mut app, &[Key::Down]);
    assert_eq!(app.picker_state, 1);
    press(&mut app, &[Key::Char('j')]);
    assert_eq!(app.picker_state, 2);
    press(&mut app, &[Key::Down]);
    assert_eq!(app.picker_state, 2);
    press(&mut app, &[Key::Char('k')]);
    assert_eq!(app.picker_state, 1);
    assert_eq!(app.key_handler(Key::Char('x')), Signal::Ignored);
    assert_eq!(app.key_handler(Key::Tab), Signal::Ignored);
    assert_eq!(app.screen, Screen::DiffPicker);
}

#[test]
fn picker_entries_are_easy_medium_hard() {
    let entries = [(0, Pos::new(9, 9), 10), (1, Pos::new(16, 16), 40), (2, Pos::new(30, 16), 99)];
    for (downs, size, mines) in entries {
        let mut app = App::new(None);
        for _ in 0..downs {
            press(&mut app, &[Key::Down]);
        }
        press(&mut app, &[Key::Enter]);
        assert_eq!(app.screen, Screen::Game);
        assert_eq!(app.state, GameState::Playing);
        assert_eq!(app.board.size, size);
        assert_eq!(app.board.mines, mines);
    }
}

#[test]
fn after_reveal_settles_the_game() {
    let mut app = small_game();
    app.after_reveal(true);
    assert_eq!(app.state, GameState::Playing);
    app.after_reveal(false);
    assert_eq!(app.state, GameState::GameOver);
    assert_eq!(app.board.cells[2].cell_type, CellType::Visible);
}

#[test]
fn first_reveal_in_a_game_is_safe() {
    for _ in 0..10 {
        let mut app = App::new(Some(Difficulty::Easy));
        press(&mut app, &[Key::Enter]);
        assert_eq!(app.state, GameState::Playing);
        assert!(app.board.generated);
        assert!(app.board.rev >= 9);
        assert_eq!(app.board.cells.iter().filter(|c| c.is_mine()).count(), 10);
    }
}

#[test]
fn default_app_waits_in_the_picker() {
    let app = App::default();
    assert_eq!(app.screen, Screen::DiffPicker);
    assert_eq!(app.state, GameState::Playing);
    assert_eq!(app.board.size, Pos::new(1, 1));
    assert_eq!(app.board.mines, 1);
    assert_eq!(app.picker_state, 0);
    assert!(app.is_valid());
}

#[test]
fn the_controller_stays_valid_through_a_game() {
    let mut app = small_game();
    assert!(app.is_valid());
    press(&mut app, &[Key::Char('f'), Key::Right, Key::Right, Key::Enter]);
    assert_eq!(app.state, GameState::GameOver);
    assert!(app.is_valid());
    press(&mut app, &[Key::Char('r')]);
    assert!(app.is_valid());
    app.board.rev = 5;
    assert!(!app.is_valid());
    app.state = GameState::GameOver;
    assert!(app.is_valid());
}
