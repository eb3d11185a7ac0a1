//! What laying a mine does to a board.

use crate::cell::{CellType, DETONATED, MINE};
use crate::counting::lemma_count_change;
use crate::counting::{lemma_count_same, lemma_count_zero};
use crate::model::{
    index_of, lemma_grid, lemma_index_of_spot, lemma_spot_of_index, touches, BoardView, Spot,
};
use vstd::prelude::*;

verus! {

/// No position has more than eight mines around it.
pub proof fn lemma_adjacent_bound(b: BoardView, p: Spot)
    ensures
        0 <= b.adjacent_mines(p) <= 8,
{
}

/// The cells of a board with one more mine, position by position.
pub proof fn lemma_with_mine_cells(b: BoardView, p: Spot)
    requires
        b.cells.len() == b.width * b.height,
    ensures
        forall|q: Spot|
            b.in_bounds(q) ==> #[trigger] b.with_mine(p).at(q) == (if q == p {
                b.at(q).with_value(MINE)
            } else if touches(q, p) {
                b.at(q).incremented()
            } else {
                b.at(q)
            }),
{
    lemma_grid(b.width, b.height);
    lemma_index_of_spot(b);
    assert forall|q: Spot| b.in_bounds(q) implies #[trigger] b.with_mine(p).at(q) == (if q == p {
        b.at(q).with_value(MINE)
    } else if touches(q, p) {
        b.at(q).incremented()
    } else {
        b.at(q)
    }) by {
        let i = index_of(b.width, q);
        assert(b.spot(i) == q);
    }
}

/// Where the mines lie after one more was laid.
pub proof fn lemma_with_mine_mines(b: BoardView, p: Spot)
    requires
        b.wf(),
        b.generated,
        b.in_bounds(p),
    ensures
        forall|q: Spot|
            b.in_bounds(q) ==> (#[trigger] b.with_mine(p).at(q)).mine() == (q == p || b.at(
                q,
            ).mine()),
{
    let m = b.with_mine(p);
    lemma_with_mine_cells(b, p);
    assert forall|q: Spot| b.in_bounds(q) implies (#[trigger] m.at(q)).mine() == (q == p || b.at(
        q,
    ).mine()) by {
        lemma_adjacent_bound(b, q);
        assert(!b.at(q).mine() ==> b.at(q).value == b.adjacent_mines(q));
    }
}

/// Whether a mine lies at `r` after one was laid at `p`.
proof fn lemma_mine_at_step(b: BoardView, p: Spot, r: Spot)
    requires
        b.wf(),
        b.generated,
        b.in_bounds(p),
        !b.at(p).mine(),
    ensures
        b.with_mine(p).mine_at(r) == b.mine_at(r) + if r == p {
            1int
        } else {
            0int
        },
{
    lemma_with_mine_mines(b, p);
    if b.in_bounds(r) {
        assert(b.with_mine(p).at(r).mine() == (r == p || b.at(r).mine()));
    }
}

/// The number of mines around `q` after one was laid at `p`.
proof fn lemma_adjacent_step(b: BoardView, p: Spot, q: Spot)
    requires
        b.wf(),
        b.generated,
        b.in_bounds(p),
        !b.at(p).mine(),
    ensures
        b.with_mine(p).adjacent_mines(q) == b.adjacent_mines(q) + if touches(q, p) {
            1int
        } else {
            0int
        },
{
    lemma_mine_at_step(b, p, (q.0 - 1, q.1 - 1));
    lemma_mine_at_step(b, p, (q.0, q.1 - 1));
    lemma_mine_at_step(b, p, (q.0 + 1, q.1 - 1));
    lemma_mine_at_step(b, p, (q.0 - 1, q.1));
    lemma_mine_at_step(b, p, (q.0 + 1, q.1));
    lemma_mine_at_step(b, p, (q.0 - 1, q.1 + 1));
    lemma_mine_at_step(b, p, (q.0, q.1 + 1));
    lemma_mine_at_step(b, p, (q.0 + 1, q.1 + 1));
}

/// A mine laid on a cell without one, on a board whose mines count as
/// laid, keeps the board in order.
pub proof fn lemma_with_mine_wf(b: BoardView, p: Spot)
    requires
        b.wf(),
        b.generated,
        b.in_bounds(p),
        !b.at(p).mine(),
    ensures
        b.with_mine(p).wf(),
{
    let m = b.with_mine(p);
    lemma_with_mine_cells(b, p);
    assert forall|q: Spot| m.in_bounds(q) implies ((#[trigger] m.at(q)).sel <==> q == m.cur) by {
        assert(b.at(q).sel <==> q == b.cur);
    }
    assert forall|q: Spot| m.in_bounds(q) && !(#[trigger] m.at(q)).mine() implies m.at(q).value
        == m.adjacent_mines(q) by {
        lemma_adjacent_bound(b, q);
        lemma_adjacent_step(b, p, q);
        assert(!b.at(q).mine() ==> b.at(q).value == b.adjacent_mines(q));
    }
}

/// A mine laid on a cell without one adds one to the number of mines
/// and leaves the covers as they are.
pub proof fn lemma_with_mine_totals(b: BoardView, p: Spot)
    requires
        b.wf(),
        b.generated,
        b.in_bounds(p),
        !b.at(p).mine(),
    ensures
        b.with_mine(p).mine_total() == b.mine_total() + 1,
        forall|kind: CellType| b.with_mine(p).tally(kind) == b.tally(kind),
{
    let m = b.with_mine(p);
    lemma_with_mine_mines(b, p);
    lemma_grid(b.width, b.height);
    assert forall|kind: CellType| m.tally(kind) == b.tally(kind) by {
        lemma_count_same(b.cells.len(), b.shows(kind), m.shows(kind));
    }
    let i = index_of(b.width, p);
    lemma_index_of_spot(b);
    assert forall|j: int| 0 <= j < b.cells.len() && j != i implies #[trigger] (b.mined())(j) == (
    m.mined())(j) by {
        lemma_spot_of_index(b, j);
        let q = b.spot(j);
        assert(m.at(q).mine() == (q == p || b.at(q).mine()));
    }
    assert(m.at(p).mine());
    lemma_count_change(b.cells.len(), b.mined(), m.mined(), i);
}

/// A mine laid on a free cell takes one from the number of free cells.
pub proof fn lemma_with_mine_free(b: BoardView, p: Spot)
    requires
        b.wf(),
        b.generated,
        b.free(p),
    ensures
        b.with_mine(p).free_total() + 1 == b.free_total(),
{
    let m = b.with_mine(p);
    lemma_with_mine_mines(b, p);
    lemma_grid(b.width, b.height);
    lemma_index_of_spot(b);
    let i = index_of(b.width, p);
    assert forall|j: int| 0 <= j < b.cells.len() && j != i implies #[trigger] (b.vacant())(j) == (
    m.vacant())(j) by {
        lemma_spot_of_index(b, j);
        let q = b.spot(j);
        assert(m.at(q).mine() == (q == p || b.at(q).mine()));
    }
    assert(b.spot(i) == p);
    assert(m.at(p).mine());
    assert((b.vacant())(i));
    assert(!(m.vacant())(i));
    lemma_count_change(b.cells.len(), b.vacant(), m.vacant(), i);
}

/// Counting the mines as laid on a board that has none keeps it in
/// order.
pub proof fn lemma_started(b: BoardView)
    requires
        b.wf(),
    ensures
        (BoardView { generated: true, ..b }).wf(),
        (BoardView { generated: true, ..b }).mine_total() == b.mine_total(),
        (BoardView { generated: true, ..b }).free_total() == b.free_total(),
        forall|kind: CellType| (BoardView { generated: true, ..b }).tally(kind) == b.tally(kind),
        !b.generated ==> forall|p: Spot| b.in_bounds(p) ==> !(#[trigger] b.at(p)).mine(),
{
    let s = BoardView { generated: true, ..b };
    if !b.generated {
        assert forall|p: Spot| b.in_bounds(p) implies !(#[trigger] b.at(p)).mine() by {
            assert(b.at(p).value == 0);
        }
        assert forall|p: Spot| s.in_bounds(p) implies !(#[trigger] s.at(p)).mine() by {
            assert(b.at(p).value == 0);
        }
        assert forall|p: Spot| s.in_bounds(p) && !(#[trigger] s.at(p)).mine() implies s.at(p).value
            == s.adjacent_mines(p) by {
            assert(b.at(p).value == 0);
            assert(s.mine_at((p.0 - 1, p.1 - 1)) == 0);
            assert(s.mine_at((p.0, p.1 - 1)) == 0);
            assert(s.mine_at((p.0 + 1, p.1 - 1)) == 0);
            assert(s.mine_at((p.0 - 1, p.1)) == 0);
            assert(s.mine_at((p.0 + 1, p.1)) == 0);
            assert(s.mine_at((p.0 - 1, p.1 + 1)) == 0);
            assert(s.mine_at((p.0, p.1 + 1)) == 0);
            assert(s.mine_at((p.0 + 1, p.1 + 1)) == 0);
        }
    } else {
        assert(s == b);
    }
    assert forall|p: Spot| s.in_bounds(p) implies ((#[trigger] s.at(p)).sel <==> p == s.cur) by {
        assert(b.at(p).sel <==> p == b.cur);
    }
    assert(s.mined() == b.mined());
    assert(s.vacant() == b.vacant());
    assert forall|kind: CellType| s.tally(kind) == b.tally(kind) by {
        assert(s.shows(kind) == b.shows(kind));
    }
}

/// Boards of one size whose cells agree position by position have the
/// same cells.
pub proof fn lemma_cells_equal(a: BoardView, b: BoardView)
    requires
        a.width == b.width,
        a.height == b.height,
        a.cells.len() == a.width * a.height,
        b.cells.len() == a.cells.len(),
        forall|q: Spot| a.in_bounds(q) ==> #[trigger] a.at(q) == b.at(q),
    ensures
        a.cells == b.cells,
{
    assert forall|i: int| 0 <= i < a.cells.len() implies a.cells[i] == b.cells[i] by {
        lemma_spot_of_index(a, i);
        assert(a.at(a.spot(i)) == b.at(a.spot(i)));
    }
    assert(a.cells =~= b.cells);
}

/// A board without a free cell has a free total of zero, and the other
/// way round.
pub proof fn lemma_no_room(b: BoardView)
    requires
        b.cells.len() == b.width * b.height,
    ensures
        b.free_total() == 0 <==> forall|q: Spot| !#[trigger] b.free(q),
{
    lemma_count_zero(b.cells.len(), b.vacant());
    lemma_grid(b.width, b.height);
    lemma_index_of_spot(b);
    if b.free_total() == 0 {
        assert forall|q: Spot| !#[trigger] b.free(q) by {
            if b.in_bounds(q) {
                let i = index_of(b.width, q);
                assert(!(b.vacant())(i));
            }
        }
    }
    if forall|q: Spot| !#[trigger] b.free(q) {
        assert forall|i: int| 0 <= i < b.cells.len() implies !#[trigger] (b.vacant())(i) by {
            assert(!b.free(b.spot(i)));
        }
    }
}

/// What an attempt to lay a mine at `p` does to a board in order.
pub proof fn lemma_mine_laid(b: BoardView, p: Spot)
    requires
        b.wf(),
    ensures
        b.mine_laid(p).wf(),
        b.mine_laid(p).cells.len() == b.cells.len(),
        forall|kind: CellType| b.mine_laid(p).tally(kind) == b.tally(kind),
        forall|i: int|
            0 <= i < b.cells.len() ==> (#[trigger] b.mine_laid(p).cells[i]).cell_type
                == b.cells[i].cell_type && b.mine_laid(p).cells[i].sel == b.cells[i].sel,
        (forall|i: int| 0 <= i < b.cells.len() ==> (#[trigger] b.cells[i]).value != DETONATED)
            ==> (forall|i: int|
            0 <= i < b.cells.len() ==> (#[trigger] b.mine_laid(p).cells[i]).value != DETONATED),
        forall|q: Spot|
            b.in_bounds(q) ==> (#[trigger] b.mine_laid(p).at(q)).mine() == (b.at(q).mine() || (q
                == p && b.free(p))),
        b.mine_laid(p).mine_total() == b.mine_total() + (if b.free(p) {
            1nat
        } else {
            0nat
        }),
        b.mine_laid(p).free_total() + (if b.free(p) {
            1nat
        } else {
            0nat
        }) == b.free_total(),
{
    let started = BoardView { generated: true, ..b };
    lemma_started(b);
    if started.free(p) {
        let m = started.with_mine(p);
        lemma_with_mine_wf(started, p);
        lemma_with_mine_totals(started, p);
        lemma_with_mine_mines(started, p);
        lemma_with_mine_free(started, p);
        assert forall|i: int| 0 <= i < b.cells.len() && (forall|i: int|
            0 <= i < b.cells.len() ==> (#[trigger] b.cells[i]).value != DETONATED) implies (
        #[trigger] m.cells[i]).value != DETONATED by {
            lemma_spot_of_index(b, i);
            let q = b.spot(i);
            lemma_adjacent_bound(started, q);
            assert(started.at(q) == b.cells[i]);
            assert(!started.at(q).mine() ==> started.at(q).value == started.adjacent_mines(q));
        }
    }
}

} // verus!
