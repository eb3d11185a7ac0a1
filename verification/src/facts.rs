//! What the operations on the model preserve.

use crate::cell::{Cell, CellType};
use crate::counting::{lemma_count_bound, lemma_count_change, lemma_count_zero};
use crate::model::{in_rect, lemma_apart, lemma_grid, BoardView, Spot};
use vstd::prelude::*;

verus! {

/// Replacing one cell moves each tally by what the old and the new cell
/// contribute to it.
pub proof fn lemma_with_cell_tally(b: BoardView, p: Spot, cell: Cell, kind: CellType)
    requires
        b.cells.len() == b.width * b.height,
        b.in_bounds(p),
    ensures
        b.with_cell(p, cell).tally(kind) + (if b.at(p).cell_type == kind {
            1nat
        } else {
            0nat
        }) == b.tally(kind) + (if cell.cell_type == kind {
            1nat
        } else {
            0nat
        }),
{
    lemma_grid(b.width, b.height);
    lemma_count_change(
        b.cells.len(),
        b.shows(kind),
        b.with_cell(p, cell).shows(kind),
        b.index(p),
    );
}

/// Replacing one cell moves the number of mines by what the old and the
/// new cell contribute to it.
pub proof fn lemma_with_cell_mines(b: BoardView, p: Spot, cell: Cell)
    requires
        b.cells.len() == b.width * b.height,
        b.in_bounds(p),
    ensures
        b.with_cell(p, cell).mine_total() + (if b.at(p).mine() {
            1nat
        } else {
            0nat
        }) == b.mine_total() + (if cell.mine() {
            1nat
        } else {
            0nat
        }),
{
    lemma_grid(b.width, b.height);
    lemma_count_change(b.cells.len(), b.mined(), b.with_cell(p, cell).mined(), b.index(p));
}

/// A board whose cells hold the same values as another's, and are open
/// where the other's are, has its values in order if the other has.
pub proof fn lemma_same_values(a: BoardView, b: BoardView)
    requires
        a.values_ok(),
        a.width == b.width,
        a.height == b.height,
        a.generated == b.generated,
        forall|p: Spot|
            a.in_bounds(p) ==> (#[trigger] b.at(p)).value == a.at(p).value && b.at(p).visible()
                == a.at(p).visible(),
    ensures
        b.values_ok(),
{
    if a.generated {
        assert forall|p: Spot| b.in_bounds(p) && !(#[trigger] b.at(p)).mine() implies b.at(p).value
            == b.adjacent_mines(p) by {
            assert(!a.at(p).mine());
            assert(a.adjacent_mines(p) == b.adjacent_mines(p));
        }
    } else {
        assert forall|p: Spot| b.in_bounds(p) implies (#[trigger] b.at(p)).value == 0 && !b.at(
            p,
        ).visible() by {
            assert(a.at(p).value == 0);
        }
    }
}

/// A board that differs from a board in order only in how its cells are
/// covered, and is open where the other is, is in order too.
pub proof fn lemma_same_shape(a: BoardView, b: BoardView)
    requires
        a.wf(),
        a.width == b.width,
        a.height == b.height,
        a.generated == b.generated,
        a.cur == b.cur,
        a.cells.len() == b.cells.len(),
        forall|p: Spot|
            a.in_bounds(p) ==> (#[trigger] b.at(p)).value == a.at(p).value && b.at(p).visible()
                == a.at(p).visible() && b.at(p).sel == a.at(p).sel,
    ensures
        b.wf(),
{
    lemma_same_values(a, b);
    assert forall|p: Spot| b.in_bounds(p) implies ((#[trigger] b.at(p)).sel <==> p == b.cur) by {
        assert(a.at(p).sel <==> p == a.cur);
    }
}

/// Moving the cursor keeps the board in order and changes nothing but
/// the highlight.
pub proof fn lemma_moved(b: BoardView, to: Spot)
    requires
        b.wf(),
        b.in_bounds(to),
    ensures
        b.moved(to).wf(),
        b.moved(to).cur == to,
        forall|p: Spot|
            b.in_bounds(p) ==> #[trigger] b.moved(to).at(p) == (Cell { sel: p == to, ..b.at(p) }),
        forall|kind: CellType| b.moved(to).tally(kind) == b.tally(kind),
        b.moved(to).mine_total() == b.mine_total(),
        b.counts_match() ==> b.moved(to).counts_match(),
{
    lemma_grid(b.width, b.height);
    lemma_apart(b.width, b.height, b.cur);
    lemma_apart(b.width, b.height, to);
    let lifted = b.with_cell(b.cur, b.at(b.cur).sel_toggled());
    let m = b.moved(to);
    assert forall|p: Spot| b.in_bounds(p) implies #[trigger] m.at(p) == (Cell {
        sel: p == to,
        ..b.at(p)
    }) by {
        assert(b.at(p).sel <==> p == b.cur);
        if p == to {
        } else {
            assert(m.at(p) == lifted.at(p));
        }
    }
    lemma_same_values(b, m);
    assert forall|kind: CellType| m.tally(kind) == b.tally(kind) by {
        lemma_with_cell_tally(b, b.cur, b.at(b.cur).sel_toggled(), kind);
        lemma_with_cell_tally(lifted, to, lifted.at(to).sel_toggled(), kind);
    }
    lemma_with_cell_mines(b, b.cur, b.at(b.cur).sel_toggled());
    lemma_with_cell_mines(lifted, to, lifted.at(to).sel_toggled());
}

/// Toggling the flag under the cursor keeps the board in order and the
/// running counts in step with the cells.
pub proof fn lemma_flag_toggled(b: BoardView)
    requires
        b.wf(),
        b.counts_match(),
    ensures
        b.flag_toggled().wf(),
        b.flag_toggled().counts_match(),
        b.at(b.cur).flagged() && !b.is_empty() ==> b.flags > 0,
        b.at(b.cur).cell_type == CellType::Hidden && !b.is_empty() ==> b.flags < b.cells.len(),
        b.flags <= b.cells.len(),
        b.flag_toggled().mine_total() == b.mine_total(),
{
    lemma_grid(b.width, b.height);
    lemma_count_bound(b.cells.len(), b.shows(CellType::Flag));
    if !b.is_empty() {
        lemma_apart(b.width, b.height, b.cur);
        let cell = b.at(b.cur).flag_toggled();
        lemma_with_cell_tally(b, b.cur, cell, CellType::Flag);
        lemma_with_cell_tally(b, b.cur, cell, CellType::Visible);
        lemma_with_cell_mines(b, b.cur, cell);
        lemma_same_shape(b, b.flag_toggled());
        lemma_count_bound(b.cells.len(), b.flag_toggled().shows(CellType::Flag));
    }
}

/// A fresh board is in order and its counts are zero, as its cells say.
pub proof fn lemma_fresh(width: nat, height: nat, mines: nat, cur: Spot)
    requires
        width > 0 && height > 0 ==> 0 <= cur.0 < width && 0 <= cur.1 < height,
    ensures
        BoardView::fresh(width, height, mines, cur).wf(),
        BoardView::fresh(width, height, mines, cur).counts_match(),
        BoardView::fresh(width, height, mines, cur).mine_total() == 0,
        forall|p: Spot|
            in_rect(width, height, p) ==> #[trigger] BoardView::fresh(width, height, mines, cur).at(
                p,
            ) == (Cell { sel: p == cur, ..Cell::blank() }),
{
    let f = BoardView::fresh(width, height, mines, cur);
    let blank = BoardView {
        cells: Seq::new(width * height, |i: int| Cell::blank()),
        width,
        height,
        mines,
        generated: false,
        cur,
        revealed: 0,
        flags: 0,
    };
    lemma_grid(width, height);
    if width > 0 && height > 0 {
        lemma_apart(width, height, cur);
    }
    if width == 0 || height == 0 {
        assert(width * height == 0) by (nonlinear_arith)
            requires
                width == 0 || height == 0,
        ;
    }
    lemma_count_zero(f.cells.len(), f.shows(CellType::Visible));
    lemma_count_zero(f.cells.len(), f.shows(CellType::Flag));
    lemma_count_zero(f.cells.len(), f.mined());
    assert forall|i: int| 0 <= i < f.cells.len() implies f.cells[i].cell_type == CellType::Hidden
        && f.cells[i].value == 0 by {
    }
}

/// Uncovering the mines keeps the board in order.
pub proof fn lemma_mines_revealed(b: BoardView)
    requires
        b.wf(),
    ensures
        b.mines_revealed().wf(),
        forall|p: Spot|
            b.in_bounds(p) ==> #[trigger] b.mines_revealed().at(p) == b.at(p).uncovered(),
{
    let r = b.mines_revealed();
    lemma_grid(b.width, b.height);
    assert forall|p: Spot| r.in_bounds(p) implies ((#[trigger] r.at(p)).sel <==> p == r.cur) by {
        assert(b.at(p).sel <==> p == b.cur);
    }
    if b.generated {
        assert forall|p: Spot| r.in_bounds(p) && !(#[trigger] r.at(p)).mine() implies r.at(p).value
            == r.adjacent_mines(p) by {
            assert(!b.at(p).mine());
            assert(b.adjacent_mines(p) == r.adjacent_mines(p));
        }
    } else {
        assert forall|p: Spot| r.in_bounds(p) implies (#[trigger] r.at(p)).value == 0 && !r.at(
            p,
        ).visible() by {
            assert(b.at(p).value == 0);
        }
    }
}

/// A board is in order if and only if its cells fill the rectangle,
/// its cursor is on it, and every cell is as the invariant asks.
pub proof fn lemma_wf_by_cells(b: BoardView)
    ensures
        b.wf() <==> {
            &&& b.cells.len() == b.width * b.height
            &&& !b.is_empty() ==> b.in_bounds(b.cur)
            &&& forall|p: Spot| b.in_bounds(p) ==> #[trigger] b.cell_ok(p)
        },
{
    if b.wf() {
        assert forall|p: Spot| b.in_bounds(p) implies #[trigger] b.cell_ok(p) by {
            let c = b.at(p);
        }
    }
    if forall|p: Spot| b.in_bounds(p) ==> #[trigger] b.cell_ok(p) {
        assert forall|p: Spot| b.in_bounds(p) implies ((#[trigger] b.at(p)).sel <==> p
            == b.cur) by {
            assert(b.cell_ok(p));
        }
        if b.generated {
            assert forall|p: Spot| b.in_bounds(p) && !(#[trigger] b.at(p)).mine() implies b.at(
                p,
            ).value == b.adjacent_mines(p) by {
                assert(b.cell_ok(p));
            }
        } else {
            assert forall|p: Spot| b.in_bounds(p) implies (#[trigger] b.at(p)).value == 0
                && !b.at(p).visible() by {
                assert(b.cell_ok(p));
            }
        }
    }
}

/// No position lies on a board without cells, so that such a board is
/// in order wherever its cursor is said to be.
pub proof fn lemma_empty(b: BoardView)
    requires
        b.is_empty(),
    ensures
        forall|p: Spot| !b.in_bounds(p),
        b.wf() <==> b.cells.len() == 0,
{
    assert(b.width * b.height == 0) by (nonlinear_arith)
        requires
            b.width == 0 || b.height == 0,
    ;
}

} // verus!
