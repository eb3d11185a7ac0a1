//! The playing field: the cells, the cursor and the running counts.

use crate::cell::{Cell, CellType};
use crate::facts::{
    lemma_empty, lemma_flag_toggled, lemma_fresh, lemma_mines_revealed, lemma_moved,
    lemma_wf_by_cells,
};
use crate::model::{
    centre_of, clamp_isize, count, index_of, lemma_apart, lemma_grid, BoardView, Spot,
};
use vstd::prelude::*;

verus! {

/// A position on the board: column and row.
#[derive(Debug, PartialEq, Eq, Clone, Copy, Structural)]
pub struct Pos {
    pub x: usize,
    pub y: usize,
}

impl Pos {
    /// The position as the model writes it.
    pub open spec fn spot(self) -> Spot {
        (self.x as int, self.y as int)
    }

    /// The position in column `x` and row `y`.
    pub fn new(x: usize, y: usize) -> (pos: Pos)
        ensures
            pos == (Pos { x, y }),
    {
        Pos { x, y }
    }
}

/// The board of one game.
#[derive(Debug, Clone)]
pub struct Board {
    /// The cells, row after row.
    pub cells: Vec<Cell>,
    /// Width in `x`, height in `y`.
    pub size: Pos,
    /// The number of mines the board is meant to hold.
    pub mines: usize,
    /// Whether mines have been laid.
    pub generated: bool,
    /// The cursor.
    pub cur: Pos,
    /// The running count of opened cells.
    pub rev: usize,
    /// The running count of flags.
    pub flags: usize,
}

impl View for Board {
    type V = BoardView;

    /// The board as the rules see it.
    open spec fn view(&self) -> BoardView {
        BoardView {
            cells: self.cells@,
            width: self.size.x as nat,
            height: self.size.y as nat,
            mines: self.mines as nat,
            generated: self.generated,
            cur: self.cur.spot(),
            revealed: self.rev as nat,
            flags: self.flags as nat,
        }
    }
}

/// The centre of a board of the given size.
pub fn center_of(width: usize, height: usize) -> (pos: Pos)
    ensures
        pos.spot() == centre_of(width as nat, height as nat),
{
    Pos { x: width.saturating_sub(1) / 2, y: height.saturating_sub(1) / 2 }
}

impl Board {
    /// Creates a board of the given size that is meant to hold `mines`
    /// mines. Every cell is hidden, no mine is laid yet, and the cursor
    /// sits at the centre.
    pub fn new(width: usize, height: usize, mines: usize) -> (board: Board)
        requires
            width * height <= usize::MAX,
        ensures
            board@ == BoardView::initial(width as nat, height as nat, mines as nat),
            board@.wf(),
            board@.counts_match(),
            board@.revealed == 0,
            board@.flags == 0,
            !board@.generated,
    {
        let cells = vec![Cell::new(0); width * height];
        let mut board = Board {
            cells,
            size: Pos { x: width, y: height },
            mines,
            generated: false,
            cur: center_of(width, height),
            rev: 0,
            flags: 0,
        };
        if width > 0 && height > 0 {
            let id = board.locate(board.cur);
            board.cells[id].sel();
        }
        proof {
            lemma_fresh(
                width as nat,
                height as nat,
                mines as nat,
                centre_of(width as nat, height as nat),
            );
            assert(board@.cells =~= BoardView::initial(
                width as nat,
                height as nat,
                mines as nat,
            ).cells);
        }
        board
    }

    /// The index in `cells` of the cell in column `x` and row `y`.
    pub fn get_id(&self, x: usize, y: usize) -> (id: usize)
        requires
            self.size.x * y + x <= usize::MAX,
        ensures
            id == self.size.x * y + x,
    {
        assert(self.size.x * y <= self.size.x * y + x);
        self.size.x * y + x
    }

    /// The index of a position on the board.
    pub(crate) fn locate(&self, pos: Pos) -> (id: usize)
        requires
            self@.cells.len() == self@.width * self@.height,
            self@.in_bounds(pos.spot()),
        ensures
            id == self@.index(pos.spot()),
            id < self.cells.len(),
    {
        proof {
            lemma_grid(self@.width, self@.height);
            assert(0 <= index_of(self@.width, pos.spot()) < self.cells.len());
            assert(self.size.x * pos.y == pos.y * self.size.x) by (nonlinear_arith);
            assert(self.size.x * pos.y + pos.x == index_of(self@.width, pos.spot()));
        }
        self.get_id(pos.x, pos.y)
    }

    /// Whether the board has no cells.
    pub fn is_empty(&self) -> (empty: bool)
        ensures
            empty == self@.is_empty(),
    {
        self.size.x == 0 || self.size.y == 0
    }

    /// The coordinate `d` steps from `v` on an axis of length `limit`, if
    /// there is one.
    pub(crate) fn step(v: usize, d: i8, limit: usize) -> (to: Option<usize>)
        requires
            -1 <= d <= 1,
        ensures
            to == (if 0 <= v + d < limit {
                Some((v + d) as usize)
            } else {
                None
            }),
    {
        if d < 0 {
            if v > 0 && v - 1 < limit {
                Some(v - 1)
            } else {
                None
            }
        } else if d == 0 {
            if v < limit {
                Some(v)
            } else {
                None
            }
        } else {
            if v < limit && v + 1 < limit {
                Some(v + 1)
            } else {
                None
            }
        }
    }

    /// One if a mine lies `dx` columns and `dy` rows from `pos`, zero if
    /// not or if that is off the board.
    fn mine_by(&self, pos: Pos, dx: i8, dy: i8) -> (n: u8)
        requires
            self@.cells.len() == self@.width * self@.height,
            -1 <= dx <= 1,
            -1 <= dy <= 1,
        ensures
            n == self@.mine_at((pos.x + dx, pos.y + dy)),
    {
        match (Self::step(pos.x, dx, self.size.x), Self::step(pos.y, dy, self.size.y)) {
            (Some(x), Some(y)) => {
                let id = self.locate(Pos::new(x, y));
                if self.cells[id].is_mine() {
                    1
                } else {
                    0
                }
            },
            _ => 0,
        }
    }

    /// The number of mines on the cells around `pos`.
    fn mines_around(&self, pos: Pos) -> (n: u8)
        requires
            self@.cells.len() == self@.width * self@.height,
        ensures
            n == self@.adjacent_mines(pos.spot()),
    {
        self.mine_by(pos, -1, -1) + self.mine_by(pos, 0, -1) + self.mine_by(pos, 1, -1)
            + self.mine_by(pos, -1, 0) + self.mine_by(pos, 1, 0) + self.mine_by(pos, -1, 1)
            + self.mine_by(pos, 0, 1) + self.mine_by(pos, 1, 1)
    }

    /// Whether the cell at `pos` is as the invariant asks.
    fn cell_ok(&self, pos: Pos) -> (ok: bool)
        requires
            self@.cells.len() == self@.width * self@.height,
            self@.in_bounds(pos.spot()),
        ensures
            ok == self@.cell_ok(pos.spot()),
    {
        let id = self.locate(pos);
        let cell = self.cells[id];
        if cell.sel != (pos.x == self.cur.x && pos.y == self.cur.y) {
            return false;
        }
        if self.generated {
            cell.is_mine() || cell.get() == self.mines_around(pos)
        } else {
            cell.get() == 0 && !cell.is_visible()
        }
    }

    /// Whether the board is in order, as every other operation asks of
    /// it. A board that was made by `new` and changed through its
    /// operations alone always is.
    pub fn is_valid(&self) -> (ok: bool)
        ensures
            ok == self@.wf(),
    {
        proof {
            lemma_wf_by_cells(self@);
        }
        match self.size.x.checked_mul(self.size.y) {
            Some(total) => {
                if total != self.cells.len() {
                    return false;
                }
            },
            None => {
                assert(self.cells.len() <= usize::MAX);
                return false;
            },
        }
        if !self.is_empty() && (self.cur.x >= self.size.x || self.cur.y >= self.size.y) {
            return false;
        }
        let mut y: usize = 0;
        while y < self.size.y
            invariant
                self@.cells.len() == self@.width * self@.height,
                y <= self.size.y,
                forall|p: Spot| self@.in_bounds(p) && p.1 < y ==> #[trigger] self@.cell_ok(p),
            decreases self.size.y - y,
        {
            let mut x: usize = 0;
            while x < self.size.x
                invariant
                    self@.cells.len() == self@.width * self@.height,
                    y < self.size.y,
                    x <= self.size.x,
                    forall|p: Spot| self@.in_bounds(p) && p.1 < y ==> #[trigger] self@.cell_ok(p),
                    forall|p: Spot|
                        self@.in_bounds(p) && p.1 == y && p.0 < x ==> #[trigger] self@.cell_ok(p),
                decreases self.size.x - x,
            {
                if !self.cell_ok(Pos::new(x, y)) {
                    return false;
                }
                x += 1;
            }
            y += 1;
        }
        true
    }

    /// Whether the running counts agree with the cells, as flagging and
    /// revealing ask.
    pub fn is_counted(&self) -> (ok: bool)
        ensures
            ok == self@.counts_match(),
    {
        let mut shown: usize = 0;
        let mut flagged: usize = 0;
        let mut i: usize = 0;
        while i < self.cells.len()
            invariant
                i <= self.cells.len(),
                shown == count(i as nat, self@.shows(CellType::Visible)),
                flagged == count(i as nat, self@.shows(CellType::Flag)),
                shown <= i,
                flagged <= i,
            decreases self.cells.len() - i,
        {
            if self.cells[i].is_visible() {
                shown += 1;
            }
            if self.cells[i].is_flag() {
                flagged += 1;
            }
            i += 1;
        }
        self.rev == shown && self.flags == flagged
    }

    /// Toggles the flag on the cursor's cell. An open cell takes no flag.
    pub fn flag(&mut self)
        requires
            old(self)@.wf(),
            old(self)@.counts_match(),
        ensures
            final(self)@ == old(self)@.flag_toggled(),
            final(self)@.wf(),
            final(self)@.counts_match(),
    {
        if self.is_empty() {
            return ;
        }
        let id = self.locate(self.cur);
        proof {
            lemma_flag_toggled(self@);
        }
        self.flags = self.cells[id].flag(self.flags);
    }

    /// Whether the game is won: the opened and the flagged cells together
    /// cover the board, and there are as many flags as mines.
    pub fn win(&self) -> (won: bool)
        requires
            self@.wf(),
        ensures
            won == self@.won(),
    {
        let total = self.cells.len();
        self.rev <= total && self.flags == total - self.rev && self.mines == self.flags
    }

    /// Puts the board back to its state before any mine was laid. The
    /// size, the number of mines and the cursor stay.
    pub fn reset(&mut self)
        requires
            old(self)@.wf(),
        ensures
            final(self)@ == old(self)@.reset(),
            final(self)@.wf(),
            final(self)@.counts_match(),
            final(self)@.revealed == 0,
            final(self)@.flags == 0,
            !final(self)@.generated,
            forall|i: int|
                0 <= i < final(self)@.cells.len() ==> (#[trigger] final(self)@.cells[i]).cell_type
                    == CellType::Hidden && final(self)@.cells[i].value == 0,
    {
        let total = self.cells.len();
        self.cells = vec![Cell::new(0); total];
        if !self.is_empty() {
            let id = self.locate(self.cur);
            self.cells[id].sel();
        }
        self.generated = false;
        self.rev = 0;
        self.flags = 0;
        proof {
            let b = old(self)@;
            lemma_fresh(b.width, b.height, b.mines, b.cur);
            lemma_grid(b.width, b.height);
            assert(self@.cells =~= b.reset().cells);
        }
    }

    /// The mines that are not flagged yet, as a signed number: negative
    /// when the player has set more flags than there are mines. A
    /// difference outside the range of `isize` is given as the nearest
    /// bound.
    pub fn flags_left(&self) -> (left: isize)
        ensures
            left == clamp_isize(self@.flags_left()),
    {
        if self.mines >= self.flags {
            let more = self.mines - self.flags;
            if more > isize::MAX as usize {
                isize::MAX
            } else {
                more as isize
            }
        } else {
            let less = self.flags - self.mines;
            if less > isize::MAX as usize {
                isize::MIN
            } else {
                -(less as isize)
            }
        }
    }

    /// Shows the board as it is after a lost game: every mine is opened,
    /// flagged or not, and every flag on a safe cell is marked as wrong.
    pub fn reveal_mines(&mut self)
        requires
            old(self)@.wf(),
        ensures
            final(self)@ == old(self)@.mines_revealed(),
            final(self)@.wf(),
    {
        let total = self.cells.len();
        let mut i: usize = 0;
        while i < total
            invariant
                i <= total,
                total == self.cells.len(),
                self.cells.len() == old(self).cells.len(),
                self.size == old(self).size,
                self.mines == old(self).mines,
                self.generated == old(self).generated,
                self.cur == old(self).cur,
                self.rev == old(self).rev,
                self.flags == old(self).flags,
                forall|j: int| 0 <= j < i ==> self.cells[j] == old(self).cells[j].uncovered(),
                forall|j: int| i <= j < total ==> self.cells[j] == old(self).cells[j],
            decreases total - i,
        {
            if self.cells[i].is_mine() {
                self.cells[i].cell_type = CellType::Visible;
            } else if self.cells[i].is_flag() {
                self.cells[i].cell_type = CellType::WrongFlag;
            }
            i += 1;
        }
        proof {
            lemma_mines_revealed(old(self)@);
            assert(self@.cells =~= old(self)@.mines_revealed().cells);
        }
    }

    /// Puts the cursor on `pos`.
    fn select(&mut self, pos: Pos)
        requires
            old(self)@.wf(),
            old(self)@.in_bounds(pos.spot()),
        ensures
            final(self)@ == old(self)@.moved(pos.spot()),
            final(self)@.wf(),
            old(self)@.counts_match() ==> final(self)@.counts_match(),
    {
        proof {
            lemma_moved(self@, pos.spot());
            lemma_apart(self@.width, self@.height, self@.cur);
        }
        let from = self.locate(self.cur);
        self.cells[from].sel();
        self.cur = pos;
        let to = self.locate(self.cur);
        self.cells[to].sel();
        proof {
            assert(self@.cells =~= old(self)@.moved(pos.spot()).cells);
        }
    }

    /// Puts the cursor at the centre of the board.
    pub fn center(&mut self)
        requires
            old(self)@.wf(),
        ensures
            final(self)@ == old(self)@.centered(),
            final(self)@.wf(),
            old(self)@.counts_match() ==> final(self)@.counts_match(),
    {
        if self.is_empty() {
            self.cur = center_of(self.size.x, self.size.y);
            proof {
                lemma_empty(self@);
                lemma_empty(old(self)@);
            }
            return ;
        }
        self.select(center_of(self.size.x, self.size.y));
    }

    /// Moves the cursor one row up; from the first row it goes to the
    /// last.
    pub fn cur_up(&mut self)
        requires
            old(self)@.wf(),
        ensures
            final(self)@ == old(self)@.up(),
            final(self)@.wf(),
            old(self)@.counts_match() ==> final(self)@.counts_match(),
    {
        if self.is_empty() {
            return ;
        }
        let y = match self.cur.y.checked_sub(1) {
            Some(y) => y,
            None => self.size.y - 1,
        };
        self.select(Pos::new(self.cur.x, y));
    }

    /// Moves the cursor one row down; from the last row it goes to the
    /// first.
    pub fn cur_down(&mut self)
        requires
            old(self)@.wf(),
        ensures
            final(self)@ == old(self)@.down(),
            final(self)@.wf(),
            old(self)@.counts_match() ==> final(self)@.counts_match(),
    {
        if self.is_empty() {
            return ;
        }
        let mut y = self.cur.y + 1;
        if y >= self.size.y {
            y = 0;
        }
        self.select(Pos::new(self.cur.x, y));
    }

    /// Moves the cursor one column left; from the first column it goes
    /// to the last.
    pub fn cur_left(&mut self)
        requires
            old(self)@.wf(),
        ensures
            final(self)@ == old(self)@.left(),
            final(self)@.wf(),
            old(self)@.counts_match() ==> final(self)@.counts_match(),
    {
        if self.is_empty() {
            return ;
        }
        let x = match self.cur.x.checked_sub(1) {
            Some(x) => x,
            None => self.size.x - 1,
        };
        self.select(Pos::new(x, self.cur.y));
    }

    /// Moves the cursor one column right; from the last column it goes
    /// to the first.
    pub fn cur_right(&mut self)
        requires
            old(self)@.wf(),
        ensures
            final(self)@ == old(self)@.right(),
            final(self)@.wf(),
            old(self)@.counts_match() ==> final(self)@.counts_match(),
    {
        if self.is_empty() {
            return ;
        }
        let mut x = self.cur.x + 1;
        if x >= self.size.x {
            x = 0;
        }
        self.select(Pos::new(x, self.cur.y));
    }
}

} // verus!
