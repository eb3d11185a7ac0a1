//! The mathematical model of a board: a rectangle of cells addressed by
//! column and row, and the meaning of every operation as a function on it.

use crate::cell::{Cell, CellType, DETONATED, MINE};
use vstd::arithmetic::div_mod::{lemma_fundamental_div_mod, lemma_fundamental_div_mod_converse};
use vstd::prelude::*;

verus! {

/// A position: column first, row second.
pub type Spot = (int, int);

/// Whether two positions are at most one step apart in both directions.
pub open spec fn near(p: Spot, q: Spot) -> bool {
    -1 <= p.0 - q.0 <= 1 && -1 <= p.1 - q.1 <= 1
}

/// Whether two positions are neighbours: near each other and distinct.
pub open spec fn touches(p: Spot, q: Spot) -> bool {
    near(p, q) && p != q
}

/// Whether a position lies on a board of the given size.
pub open spec fn in_rect(width: nat, height: nat, p: Spot) -> bool {
    0 <= p.0 < width && 0 <= p.1 < height
}

/// Where the cell at `p` sits among the cells of a board of the given
/// width, row after row.
pub open spec fn index_of(width: nat, p: Spot) -> int {
    p.1 * width + p.0
}

/// The centre of a board of the given size; on an empty axis the
/// coordinate is zero.
pub open spec fn centre_of(width: nat, height: nat) -> Spot {
    (
        if width == 0 {
            0
        } else {
            (width - 1) / 2
        },
        if height == 0 {
            0
        } else {
            (height - 1) / 2
        },
    )
}

/// How many indices below `n` satisfy `f`.
pub open spec fn count(n: nat, f: spec_fn(int) -> bool) -> nat
    decreases n,
{
    if n == 0 {
        0
    } else {
        count((n - 1) as nat, f) + if f(n - 1) {
            1nat
        } else {
            0nat
        }
    }
}

/// A board as the rules see it.
pub struct BoardView {
    /// The cells, row after row.
    pub cells: Seq<Cell>,
    pub width: nat,
    pub height: nat,
    /// The number of mines the board is meant to hold.
    pub mines: nat,
    /// Whether mines have been laid.
    pub generated: bool,
    /// The position of the cursor.
    pub cur: Spot,
    /// The running count of opened cells.
    pub revealed: nat,
    /// The running count of flags.
    pub flags: nat,
}

impl BoardView {
    /// Whether the board has no cells.
    pub open spec fn is_empty(self) -> bool {
        self.width == 0 || self.height == 0
    }

    /// Whether `p` lies on the board.
    pub open spec fn in_bounds(self, p: Spot) -> bool {
        in_rect(self.width, self.height, p)
    }

    /// Where the cell at `p` sits in `cells`.
    pub open spec fn index(self, p: Spot) -> int {
        index_of(self.width, p)
    }

    /// The position of the cell that sits at `i` in `cells`.
    pub open spec fn spot(self, i: int) -> Spot {
        (i % (self.width as int), i / (self.width as int))
    }

    /// The cell at `p`.
    pub open spec fn at(self, p: Spot) -> Cell {
        self.cells[self.index(p)]
    }

    /// The board with the cell at `p` replaced.
    pub open spec fn with_cell(self, p: Spot, cell: Cell) -> BoardView {
        BoardView { cells: self.cells.update(self.index(p), cell), ..self }
    }

    /// One if a mine lies at `p`, zero if not or if `p` is off the board.
    pub open spec fn mine_at(self, p: Spot) -> int {
        if self.in_bounds(p) && self.at(p).mine() {
            1
        } else {
            0
        }
    }

    /// The number of mines on the eight positions around `p`.
    pub open spec fn adjacent_mines(self, p: Spot) -> int {
        self.mine_at((p.0 - 1, p.1 - 1)) + self.mine_at((p.0, p.1 - 1)) + self.mine_at(
            (p.0 + 1, p.1 - 1),
        ) + self.mine_at((p.0 - 1, p.1)) + self.mine_at((p.0 + 1, p.1)) + self.mine_at(
            (p.0 - 1, p.1 + 1),
        ) + self.mine_at((p.0, p.1 + 1)) + self.mine_at((p.0 + 1, p.1 + 1))
    }

    /// Whether the cell at an index is shown as `kind`.
    pub open spec fn shows(self, kind: CellType) -> spec_fn(int) -> bool {
        |i: int| self.cells[i].cell_type == kind
    }

    /// Whether the cell at an index holds a mine.
    pub open spec fn mined(self) -> spec_fn(int) -> bool {
        |i: int| self.cells[i].mine()
    }

    /// The number of cells shown as `kind`.
    pub open spec fn tally(self, kind: CellType) -> nat {
        count(self.cells.len(), self.shows(kind))
    }

    /// The number of mines on the board.
    pub open spec fn mine_total(self) -> nat {
        count(self.cells.len(), self.mined())
    }

    /// Before mines are laid every value is zero and nothing is open;
    /// afterwards every cell without a mine shows the number of mines
    /// around it.
    pub open spec fn values_ok(self) -> bool {
        if self.generated {
            forall|p: Spot|
                self.in_bounds(p) && !(#[trigger] self.at(p)).mine() ==> self.at(p).value
                    == self.adjacent_mines(p)
        } else {
            forall|p: Spot|
                self.in_bounds(p) ==> (#[trigger] self.at(p)).value == 0 && !self.at(p).visible()
        }
    }

    /// Whether the cell at `p` is as the invariant asks: highlighted if
    /// and only if the cursor is on it, and with the value that
    /// `values_ok` asks for.
    pub open spec fn cell_ok(self, p: Spot) -> bool {
        &&& self.at(p).sel <==> p == self.cur
        &&& if self.generated {
            !self.at(p).mine() ==> self.at(p).value == self.adjacent_mines(p)
        } else {
            self.at(p).value == 0 && !self.at(p).visible()
        }
    }

    /// The invariant of a board: the cells fill the rectangle, the cursor
    /// is on the board, exactly the cursor's cell is highlighted, and the
    /// values are as `values_ok` says.
    pub open spec fn wf(self) -> bool {
        &&& self.cells.len() == self.width * self.height
        &&& !self.is_empty() ==> self.in_bounds(self.cur)
        &&& forall|p: Spot| self.in_bounds(p) ==> ((#[trigger] self.at(p)).sel <==> p == self.cur)
        &&& self.values_ok()
    }

    /// The running counts agree with the cells. This holds from
    /// construction or reset until the mines are uncovered at the end of
    /// a lost game.
    pub open spec fn counts_match(self) -> bool {
        &&& self.revealed == self.tally(CellType::Visible)
        &&& self.flags == self.tally(CellType::Flag)
    }

    /// No mine is open.
    pub open spec fn no_mine_shown(self) -> bool {
        forall|p: Spot|
            self.in_bounds(p) && (#[trigger] self.at(p)).mine() ==> !self.at(p).visible()
    }

    /// A board of the given size with every cell hidden and zero, no
    /// mines laid, and the cursor at `cur`.
    pub open spec fn fresh(width: nat, height: nat, mines: nat, cur: Spot) -> BoardView {
        let blank = BoardView {
            cells: Seq::new(width * height, |i: int| Cell::blank()),
            width,
            height,
            mines,
            generated: false,
            cur,
            revealed: 0,
            flags: 0,
        };
        if blank.is_empty() {
            blank
        } else {
            blank.with_cell(cur, Cell::blank().sel_toggled())
        }
    }

    /// A new board: fresh, with the cursor at the centre.
    pub open spec fn initial(width: nat, height: nat, mines: nat) -> BoardView {
        BoardView::fresh(width, height, mines, centre_of(width, height))
    }

    /// The board after the cursor went to `to`: the highlight leaves the
    /// old cell and lands on the new one.
    pub open spec fn moved(self, to: Spot) -> BoardView {
        let lifted = self.with_cell(self.cur, self.at(self.cur).sel_toggled());
        BoardView { cur: to, ..lifted.with_cell(to, lifted.at(to).sel_toggled()) }
    }

    /// The cursor one row up, wrapping to the last row.
    pub open spec fn up(self) -> BoardView {
        if self.is_empty() {
            self
        } else {
            self.moved(
                (
                    self.cur.0,
                    if self.cur.1 == 0 {
                        self.height - 1
                    } else {
                        self.cur.1 - 1
                    },
                ),
            )
        }
    }

    /// The cursor one row down, wrapping to the first row.
    pub open spec fn down(self) -> BoardView {
        if self.is_empty() {
            self
        } else {
            self.moved(
                (
                    self.cur.0,
                    if self.cur.1 + 1 >= self.height {
                        0
                    } else {
                        self.cur.1 + 1
                    },
                ),
            )
        }
    }

    /// The cursor one column left, wrapping to the last column.
    pub open spec fn left(self) -> BoardView {
        if self.is_empty() {
            self
        } else {
            self.moved(
                (
                    if self.cur.0 == 0 {
                        self.width - 1
                    } else {
                        self.cur.0 - 1
                    },
                    self.cur.1,
                ),
            )
        }
    }

    /// The cursor one column right, wrapping to the first column.
    pub open spec fn right(self) -> BoardView {
        if self.is_empty() {
            self
        } else {
            self.moved(
                (
                    if self.cur.0 + 1 >= self.width {
                        0
                    } else {
                        self.cur.0 + 1
                    },
                    self.cur.1,
                ),
            )
        }
    }

    /// The cursor at the centre of the board. A board without cells has
    /// no highlight to move.
    pub open spec fn centered(self) -> BoardView {
        if self.is_empty() {
            BoardView { cur: centre_of(self.width, self.height), ..self }
        } else {
            self.moved(centre_of(self.width, self.height))
        }
    }

    /// The board after the flag key on the cursor's cell.
    pub open spec fn flag_toggled(self) -> BoardView {
        if self.is_empty() {
            self
        } else {
            let cell = self.at(self.cur);
            BoardView {
                flags: match cell.cell_type {
                    CellType::Flag => (self.flags - 1) as nat,
                    CellType::Hidden => self.flags + 1,
                    _ => self.flags,
                },
                ..self.with_cell(self.cur, cell.flag_toggled())
            }
        }
    }

    /// The board put back to its state before any mine was laid, with the
    /// cursor where it is.
    pub open spec fn reset(self) -> BoardView {
        BoardView::fresh(self.width, self.height, self.mines, self.cur)
    }

    /// The board as shown after a lost game: every mine open, flag or no
    /// flag, and every flag that sat on a safe cell marked as wrong. The
    /// running counts stay as they were.
    pub open spec fn mines_revealed(self) -> BoardView {
        BoardView {
            cells: Seq::new(self.cells.len(), |i: int| self.cells[i].uncovered()),
            ..self
        }
    }

    /// Whether neither the cursor's cell nor a cell around it holds a
    /// mine.
    pub open spec fn safe_start(self) -> bool {
        forall|p: Spot|
            self.in_bounds(p) && near(p, self.cur) ==> !(#[trigger] self.at(p)).mine()
    }

    /// Whether a mine may be laid at `p`: the position is on the board,
    /// holds no mine yet, and is neither the cursor nor next to it.
    pub open spec fn free(self, p: Spot) -> bool {
        self.in_bounds(p) && !self.at(p).mine() && !near(p, self.cur)
    }

    /// Whether a mine may be laid on the cell at an index.
    pub open spec fn vacant(self) -> spec_fn(int) -> bool {
        |i: int| self.free(self.spot(i))
    }

    /// The number of cells on which a mine may be laid.
    pub open spec fn free_total(self) -> nat {
        count(self.cells.len(), self.vacant())
    }

    /// The board with a mine at `p`: the cell holds the mine, and each of
    /// the cells around it counts one mine more.
    pub open spec fn with_mine(self, p: Spot) -> BoardView {
        BoardView {
            cells: Seq::new(
                self.cells.len(),
                |i: int|
                    if self.spot(i) == p {
                        self.cells[i].with_value(MINE)
                    } else if touches(self.spot(i), p) {
                        self.cells[i].incremented()
                    } else {
                        self.cells[i]
                    },
            ),
            ..self
        }
    }

    /// The board after an attempt to lay a mine at `p`. Mines count as
    /// laid from then on; the mine itself goes down only where `free`
    /// allows it.
    pub open spec fn mine_laid(self, p: Spot) -> BoardView {
        let started = BoardView { generated: true, ..self };
        if started.free(p) {
            started.with_mine(p)
        } else {
            started
        }
    }

    /// Whether `self` may be what laying the mines makes of `pre`: the
    /// covers, the cursor and the counts are those of `pre`; the cursor
    /// and the cells around it hold no mine; there are as many mines as
    /// `pre` asks for, or as many as there is room for if that is less;
    /// and every other cell shows the number of mines around it.
    pub open spec fn laid_from(self, pre: BoardView) -> bool {
        &&& !pre.generated
        &&& self == (BoardView { cells: self.cells, generated: true, ..pre })
        &&& self.cells.len() == pre.cells.len()
        &&& forall|i: int|
            0 <= i < self.cells.len() ==> (#[trigger] self.cells[i]).cell_type
                == pre.cells[i].cell_type && self.cells[i].sel == pre.cells[i].sel
                && self.cells[i].value != DETONATED
        &&& self.values_ok()
        &&& self.safe_start()
        &&& self.mine_total() == if pre.mines <= pre.free_total() {
            pre.mines
        } else {
            pre.free_total()
        }
    }

    /// Whether `self` may be the board on which a reveal acts when it is
    /// asked of `pre`: `pre` itself if its mines are laid, and else any
    /// board that laying them can give.
    pub open spec fn ready_from(self, pre: BoardView) -> bool {
        if pre.generated {
            self == pre
        } else {
            self.laid_from(pre)
        }
    }

    /// Whether the game is won: the opened and the flagged cells together
    /// cover the board, and there are as many flags as mines.
    pub open spec fn won(self) -> bool {
        self.revealed + self.flags == self.width * self.height && self.flags == self.mines
    }

    /// Mines not yet flagged; negative when there are more flags than
    /// mines.
    pub open spec fn flags_left(self) -> int {
        self.mines - self.flags
    }
}

/// The number of a signed machine word that is closest to `v`.
pub open spec fn clamp_isize(v: int) -> int {
    if v > isize::MAX {
        isize::MAX as int
    } else if v < isize::MIN {
        isize::MIN as int
    } else {
        v
    }
}

/// On a board of the given size every position has an index among the
/// cells.
pub proof fn lemma_grid(width: nat, height: nat)
    ensures
        forall|p: Spot|
            in_rect(width, height, p) ==> 0 <= #[trigger] index_of(width, p) < width * height,
{
    assert forall|p: Spot| in_rect(width, height, p) implies 0 <= #[trigger] index_of(width, p)
        < width * height by {
        assert(0 <= p.1 * width + p.0 < width * height) by (nonlinear_arith)
            requires
                0 <= p.0 < width,
                0 <= p.1 < height,
        ;
    }
}

/// No other position on the board shares the index of `p`.
pub proof fn lemma_apart(width: nat, height: nat, p: Spot)
    requires
        in_rect(width, height, p),
    ensures
        0 <= index_of(width, p) < width * height,
        forall|q: Spot|
            in_rect(width, height, q) && q != p ==> #[trigger] index_of(width, q) != index_of(
                width,
                p,
            ),
{
    lemma_grid(width, height);
    assert forall|q: Spot| in_rect(width, height, q) && q != p implies #[trigger] index_of(
        width,
        q,
    ) != index_of(width, p) by {
        lemma_fundamental_div_mod_converse(index_of(width, p), width as int, p.1, p.0);
        lemma_fundamental_div_mod_converse(index_of(width, q), width as int, q.1, q.0);
    }
}

/// Every position on the board is the one that `spot` gives for its
/// index.
pub proof fn lemma_index_of_spot(b: BoardView)
    ensures
        forall|p: Spot| b.in_bounds(p) ==> b.spot(#[trigger] index_of(b.width, p)) == p,
{
    assert forall|p: Spot| b.in_bounds(p) implies b.spot(#[trigger] index_of(b.width, p)) == p by {
        lemma_fundamental_div_mod_converse(index_of(b.width, p), b.width as int, p.1, p.0);
    }
}

/// Every index among the cells of a board belongs to the position that
/// `spot` gives.
pub proof fn lemma_spot_of_index(b: BoardView, i: int)
    requires
        0 <= i < b.width * b.height,
    ensures
        b.in_bounds(b.spot(i)),
        b.index(b.spot(i)) == i,
{
    let w = b.width as int;
    assert(w > 0) by (nonlinear_arith)
        requires
            0 <= i < w * b.height,
            w >= 0,
    ;
    lemma_fundamental_div_mod(i, w);
    let x = i % w;
    let y = i / w;
    assert(0 <= x < w);
    assert(w * y == y * w) by (nonlinear_arith);
    assert(0 <= y < b.height) by (nonlinear_arith)
        requires
            i == w * y + x,
            0 <= x < w,
            0 <= i < w * b.height,
    ;
}

} // verus!
