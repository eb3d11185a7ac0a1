//! The controller: a board, the state of the game and the screen that is
//! up, and what each key does to them.

use crate::args::Difficulty;
use crate::board::Board;
use crate::game_state::{GameState, Screen};
use crate::model::BoardView;
use vstd::prelude::*;

verus! {

/// A key, as far as the game tells keys apart.
#[derive(Debug, PartialEq, Eq, Clone, Copy, Structural)]
pub enum Key {
    Up,
    Down,
    Left,
    Right,
    Enter,
    Tab,
    Esc,
    Char(char),
    Other,
}

/// What the front end is to do after a key.
#[derive(Debug, PartialEq, Eq, Clone, Copy, Structural)]
pub enum Signal {
    /// The key means nothing here; nothing changed.
    Ignored,
    /// Draw the screen anew.
    Render,
    /// Leave the program.
    Exit,
}

/// The game as the player sees it.
#[derive(Debug)]
pub struct App {
    pub board: Board,
    pub state: GameState,
    pub screen: Screen,
    /// The entry of the difficulty picker that is highlighted.
    pub picker_state: usize,
}

/// The controller as the rules see it.
pub struct AppView {
    pub board: BoardView,
    pub state: GameState,
    pub screen: Screen,
    pub picker: nat,
}

impl View for App {
    type V = AppView;

    /// The controller as the rules see it.
    open spec fn view(&self) -> AppView {
        AppView {
            board: self.board@,
            state: self.state,
            screen: self.screen,
            picker: self.picker_state as nat,
        }
    }
}

/// The difficulty behind an entry of the picker.
pub open spec fn picked(entry: nat) -> Difficulty {
    if entry == 0 {
        Difficulty::Easy
    } else if entry == 1 {
        Difficulty::Medium
    } else {
        Difficulty::Hard
    }
}

impl AppView {
    /// The invariant of the controller: the board is in order, and while
    /// the game is played its counts agree with its cells.
    pub open spec fn wf(self) -> bool {
        &&& self.board.wf()
        &&& self.state == GameState::Playing ==> self.board.counts_match()
    }

    /// How the controller starts: on the board of the difficulty if one
    /// is given, and else in the difficulty picker with an empty board.
    pub open spec fn initial(dif: Option<Difficulty>) -> AppView {
        match dif {
            Some(d) => AppView {
                board: BoardView::initial(d.layout().0, d.layout().1, d.layout().2),
                state: GameState::Playing,
                screen: Screen::Game,
                picker: 0,
            },
            None => AppView {
                board: BoardView::initial(0, 0, 0),
                state: GameState::Playing,
                screen: Screen::DiffPicker,
                picker: 0,
            },
        }
    }

    /// Whether the key asks for a reveal.
    pub open spec fn reveals(self, key: Key) -> bool {
        (key == Key::Enter || key == Key::Char('d')) && self.state == GameState::Playing
    }

    /// The controller after a reveal that left the board as `board` and
    /// said `alive`. A lost game uncovers the mines. A board that counts
    /// as won makes the game won, and else a lost game is over.
    pub open spec fn after_reveal(self, board: BoardView, alive: bool) -> AppView {
        let board = if alive {
            board
        } else {
            board.mines_revealed()
        };
        AppView {
            board,
            state: if board.won() {
                GameState::Win
            } else if alive {
                self.state
            } else {
                GameState::GameOver
            },
            ..self
        }
    }

    /// The controller with another board.
    pub open spec fn with_board(self, board: BoardView) -> AppView {
        AppView { board, ..self }
    }

    /// What a key does on the game screen, and what the front end is to
    /// do then, for every key but one that asks for a reveal. The arrows
    /// and `h`, `j`, `k`, `l` move the cursor, `f` flags while the game
    /// is played, `r` starts anew, `c` centres the cursor, `i` opens the
    /// help, Tab opens the difficulty picker, Esc and `q` leave.
    pub open spec fn on_game_key(self, key: Key) -> (AppView, Signal) {
        if key == Key::Up || key == Key::Char('k') {
            (self.with_board(self.board.up()), Signal::Render)
        } else if key == Key::Down || key == Key::Char('j') {
            (self.with_board(self.board.down()), Signal::Render)
        } else if key == Key::Left || key == Key::Char('h') {
            (self.with_board(self.board.left()), Signal::Render)
        } else if key == Key::Right || key == Key::Char('l') {
            (self.with_board(self.board.right()), Signal::Render)
        } else if key == Key::Char('f') && self.state == GameState::Playing {
            let board = self.board.flag_toggled();
            (
                AppView {
                    board,
                    state: if board.won() {
                        GameState::Win
                    } else {
                        self.state
                    },
                    ..self
                },
                Signal::Render,
            )
        } else if key == Key::Char('r') {
            (
                AppView { board: self.board.reset(), state: GameState::Playing, ..self },
                Signal::Render,
            )
        } else if key == Key::Char('c') {
            (self.with_board(self.board.centered()), Signal::Render)
        } else if key == Key::Char('i') {
            (AppView { screen: Screen::Help, ..self }, Signal::Render)
        } else if key == Key::Tab {
            (AppView { screen: Screen::DiffPicker, ..self }, Signal::Render)
        } else if key == Key::Char('q') || key == Key::Esc {
            (self, Signal::Exit)
        } else {
            (self, Signal::Ignored)
        }
    }

    /// What a key does on the help screen: `i` goes back to the game,
    /// Esc and `q` leave.
    pub open spec fn on_help_key(self, key: Key) -> (AppView, Signal) {
        if key == Key::Char('i') {
            (AppView { screen: Screen::Game, ..self }, Signal::Render)
        } else if key == Key::Esc || key == Key::Char('q') {
            (self, Signal::Exit)
        } else {
            (self, Signal::Ignored)
        }
    }

    /// The controller after a difficulty was chosen in the picker: a new
    /// board of that difficulty, the game screen, and a game that is
    /// played.
    pub open spec fn chosen(self) -> AppView {
        let d = picked(self.picker);
        AppView {
            board: BoardView::initial(d.layout().0, d.layout().1, d.layout().2),
            state: GameState::Playing,
            screen: Screen::Game,
            ..self
        }
    }

    /// What a key does in the difficulty picker: up and `k`, down and
    /// `j` move the highlight between the three entries, Enter takes the
    /// highlighted one, Esc and `q` leave.
    pub open spec fn on_picker_key(self, key: Key) -> (AppView, Signal) {
        if key == Key::Up || key == Key::Char('k') {
            (
                AppView {
                    picker: if self.picker == 0 {
                        0
                    } else {
                        (self.picker - 1) as nat
                    },
                    ..self
                },
                Signal::Render,
            )
        } else if key == Key::Down || key == Key::Char('j') {
            (
                AppView {
                    picker: if self.picker < 2 {
                        self.picker + 1
                    } else {
                        self.picker
                    },
                    ..self
                },
                Signal::Render,
            )
        } else if key == Key::Enter {
            (self.chosen(), Signal::Render)
        } else if key == Key::Esc || key == Key::Char('q') {
            (self, Signal::Exit)
        } else {
            (self, Signal::Ignored)
        }
    }

    /// What a key does on the screen that is up, for every key but one
    /// that asks for a reveal on the game screen.
    pub open spec fn on_key(self, key: Key) -> (AppView, Signal) {
        match self.screen {
            Screen::Game => self.on_game_key(key),
            Screen::DiffPicker => self.on_picker_key(key),
            Screen::Help => self.on_help_key(key),
        }
    }

    /// Whether `after` and `signal` are what a key on the game screen
    /// may give. A key that asks for a reveal gives what `after_reveal`
    /// makes of the reveal on a board with its mines laid, which is the
    /// board itself or, at the first reveal, any board that laying the
    /// mines can give. Every other key gives what `on_game_key` says.
    pub open spec fn game_key_gives(self, key: Key, after: AppView, signal: Signal) -> bool {
        if self.reveals(key) {
            signal == Signal::Render && exists|ready: BoardView| #[trigger]
                ready.ready_from(self.board) && after == self.after_reveal(
                    ready.dug().0,
                    ready.dug().1,
                )
        } else {
            (after, signal) == self.on_game_key(key)
        }
    }

    /// Whether `after` and `signal` are what a key may give on the
    /// screen that is up.
    pub open spec fn key_gives(self, key: Key, after: AppView, signal: Signal) -> bool {
        if self.screen == Screen::Game {
            self.game_key_gives(key, after, signal)
        } else {
            (after, signal) == self.on_key(key)
        }
    }
}

impl Default for App {
    /// The controller in the difficulty picker, over a board of a single
    /// cell.
    fn default() -> (app: App)
        ensures
            app@ == (AppView {
                board: BoardView::initial(1, 1, 1),
                state: GameState::Playing,
                screen: Screen::DiffPicker,
                picker: 0,
            }),
            app@.wf(),
    {
        App {
            board: Board::new(1, 1, 1),
            state: GameState::Playing,
            screen: Screen::DiffPicker,
            picker_state: 0,
        }
    }
}

impl App {
    /// Whether the controller is in order, as its operations ask of it.
    pub fn is_valid(&self) -> (ok: bool)
        ensures
            ok == self@.wf(),
    {
        self.board.is_valid() && (!self.state.is_playing() || self.board.is_counted())
    }

    /// Starts on the board of the given difficulty, or in the difficulty
    /// picker if none is given.
    pub fn new(dif: Option<Difficulty>) -> (app: App)
        requires
            dif matches Some(d) ==> d.layout().0 * d.layout().1 <= usize::MAX,
        ensures
            app@ == AppView::initial(dif),
            app@.wf(),
    {
        let (board, screen) = match dif {
            Some(dif) => {
                let (w, h, m) = dif.config();
                (Board::new(w, h, m), Screen::Game)
            },
            None => (Board::new(0, 0, 0), Screen::DiffPicker),
        };
        App { board, state: GameState::Playing, screen, picker_state: 0 }
    }

    /// Hands the key to the screen that is up.
    pub fn key_handler(&mut self, key: Key) -> (signal: Signal)
        requires
            old(self)@.wf(),
        ensures
            final(self)@.wf(),
            old(self)@.key_gives(key, final(self)@, signal),
    {
        match self.screen {
            Screen::Game => self.listen_game(key),
            Screen::DiffPicker => self.listen_dp(key),
            Screen::Help => self.listen_help(key),
        }
    }

    /// Takes a key on the game screen.
    ///
    /// A key that asks for a reveal opens the cursor's cell on the board
    /// with its mines laid, which the first reveal lays by chance, and
    /// settles the game as `after_reveal` says. Every other key does
    /// what `on_game_key` says.
    pub fn listen_game(&mut self, key: Key) -> (signal: Signal)
        requires
            old(self)@.wf(),
        ensures
            final(self)@.wf(),
            old(self)@.game_key_gives(key, final(self)@, signal),
    {
        match key {
            Key::Up | Key::Char('k') => {
                self.board.cur_up();
            },
            Key::Down | Key::Char('j') => {
                self.board.cur_down();
            },
            Key::Left | Key::Char('h') => {
                self.board.cur_left();
            },
            Key::Right | Key::Char('l') => {
                self.board.cur_right();
            },
            Key::Enter | Key::Char('d') => {
                if !self.state.is_playing() {
                    return Signal::Ignored;
                }
                let alive = self.board.reveal_at_cursor();
                self.after_reveal(alive);
            },
            Key::Char('f') => {
                if !self.state.is_playing() {
                    return Signal::Ignored;
                }
                self.board.flag();
                if self.board.win() {
                    self.state = GameState::Win;
                }
            },
            Key::Char('r') => {
                self.board.reset();
                self.state = GameState::Playing;
            },
            Key::Char('c') => {
                self.board.center();
            },
            Key::Char('i') => {
                self.screen = Screen::Help;
            },
            Key::Tab => {
                self.screen = Screen::DiffPicker;
            },
            Key::Char('q') | Key::Esc => {
                return Signal::Exit;
            },
            _ => {
                return Signal::Ignored;
            },
        }
        Signal::Render
    }

    /// Settles the game after a reveal that said `alive`: a lost game
    /// uncovers the mines and is over, and a board that counts as won
    /// makes the game won.
    pub fn after_reveal(&mut self, alive: bool)
        requires
            old(self)@.board.wf(),
            alive ==> old(self)@.board.counts_match(),
        ensures
            final(self)@ == old(self)@.after_reveal(old(self)@.board, alive),
            final(self)@.wf(),
    {
        if !alive {
            self.state = GameState::GameOver;
            self.board.reveal_mines();
        }
        if self.board.win() {
            self.state = GameState::Win;
        }
    }

    /// Takes a key on the help screen.
    pub fn listen_help(&mut self, key: Key) -> (signal: Signal)
        ensures
            (final(self)@, signal) == old(self)@.on_help_key(key),
    {
        match key {
            Key::Char('i') => {
                self.screen = Screen::Game;
            },
            Key::Esc | Key::Char('q') => {
                return Signal::Exit;
            },
            _ => {
                return Signal::Ignored;
            },
        }
        Signal::Render
    }

    /// Takes a key in the difficulty picker.
    pub fn listen_dp(&mut self, key: Key) -> (signal: Signal)
        requires
            old(self)@.wf(),
        ensures
            (final(self)@, signal) == old(self)@.on_picker_key(key),
            final(self)@.wf(),
    {
        match key {
            Key::Up | Key::Char('k') => {
                self.picker_state = self.picker_state.saturating_sub(1);
            },
            Key::Down | Key::Char('j') => {
                if self.picker_state < 2 {
                    self.picker_state += 1;
                }
            },
            Key::Enter => {
                self.eval_diff();
            },
            Key::Esc | Key::Char('q') => {
                return Signal::Exit;
            },
            _ => {
                return Signal::Ignored;
            },
        }
        Signal::Render
    }

    /// Starts a game of the difficulty that is highlighted in the
    /// picker.
    fn eval_diff(&mut self)
        ensures
            final(self)@ == old(self)@.chosen(),
            final(self)@.wf(),
    {
        let diff = match self.picker_state {
            0 => Difficulty::Easy,
            1 => Difficulty::Medium,
            _ => Difficulty::Hard,
        };
        let (w, h, m) = diff.config();
        self.board = Board::new(w, h, m);
        self.screen = Screen::Game;
        self.state = GameState::Playing;
    }
}

} // verus!
