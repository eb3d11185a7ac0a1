//! Laws of the board, stated over the model and proved.

use crate::cell::{CellType, DETONATED};
use crate::chord::{lemma_detonated_cells, lemma_opened_cells, lemma_set_off};
use crate::counting::{
    lemma_count_disjoint, lemma_count_full, lemma_count_same, lemma_count_subset,
};
use crate::facts::{lemma_flag_toggled, lemma_moved};
use crate::flood::lemma_reach_self;
use crate::model::{
    index_of, lemma_apart, lemma_grid, lemma_spot_of_index, touches, BoardView, Spot,
};
use vstd::prelude::*;

verus! {

/// Two presses of the flag key on one cell leave the board as it was: a
/// hidden cell is hidden again, and the count of flags is what it was.
pub proof fn law_flag_twice(b: BoardView)
    requires
        b.wf(),
        b.counts_match(),
    ensures
        b.flag_toggled().flag_toggled() == b,
{
    lemma_flag_toggled(b);
    if !b.is_empty() {
        lemma_grid(b.width, b.height);
        lemma_apart(b.width, b.height, b.cur);
        assert(b.flag_toggled().flag_toggled().cells =~= b.cells);
    }
}

/// A second chord on the same cell changes nothing and ends as the
/// first did: no cell is opened or counted again.
pub proof fn law_chord_twice(b: BoardView)
    requires
        b.cells.len() == b.width * b.height,
    ensures
        b.chorded().chorded() == b.chorded(),
        (forall|q: Spot| !#[trigger] b.chorded().struck(q)) == (forall|q: Spot|
            !#[trigger] b.struck(q)),
{
    let base = b.detonated();
    let sources = b.chord_sources();
    let region = b.flood(sources);
    let once = b.chorded();
    lemma_detonated_cells(b);
    lemma_opened_cells(base, region);
    assert forall|q: Spot| once.struck(q) == b.struck(q) by {
        if b.in_bounds(q) {
            let c = once.at(q);
            let d = base.at(q);
        }
    }
    lemma_detonated_cells(once);
    assert forall|i: int| 0 <= i < once.cells.len() implies once.detonated().cells[i]
        == once.cells[i] by {
        lemma_spot_of_index(b, i);
        let q = b.spot(i);
        let c = once.at(q);
        let d = base.at(q);
        let e = once.detonated().at(q);
    }
    assert(once.detonated().cells =~= once.cells);
    assert(once.detonated() == once);
    assert forall|q: Spot| once.chord_sources().contains(q) == sources.contains(q) by {
        if b.in_bounds(q) {
            let c = once.at(q);
            let d = base.at(q);
        }
    }
    assert(once.chord_sources() =~= sources);
    let again = once.flood(sources);
    assert forall|p: Spot| !again.contains(p) by {
        if again.contains(p) {
            let s = choose|s: Spot| sources.contains(s) && #[trigger] once.reaches(s, p);
            let t = choose|t: Seq<Spot>|
                #[trigger] once.is_trail(t) && t.first() == s && t.last() == p;
            assert(once.passable(t[0]));
            let c = once.at(s);
            let d = base.at(s);
            if b.passable(s) {
                lemma_reach_self(b, s);
                assert(region.contains(s));
            }
        }
    }
    assert(again =~= Set::empty());
    lemma_opened_cells(once, Set::empty());
    let twice = once.opened(Set::empty());
    assert forall|i: int| 0 <= i < once.cells.len() implies twice.cells[i] == once.cells[i] by {
        lemma_spot_of_index(b, i);
        let q = b.spot(i);
        let c = twice.at(q);
    }
    assert(twice.cells =~= once.cells);
    lemma_count_same(
        once.cells.len(),
        (BoardView { cells: twice.cells, ..once }).shows(CellType::Visible),
        (BoardView { cells: once.cells, ..base }).shows(CellType::Visible),
    );
    assert(twice == once);
    if forall|q: Spot| !#[trigger] b.struck(q) {
        assert forall|q: Spot| !#[trigger] once.struck(q) by {
            assert(!b.struck(q));
        }
    }
    if forall|q: Spot| !#[trigger] once.struck(q) {
        assert forall|q: Spot| !#[trigger] b.struck(q) by {
            assert(!once.struck(q));
        }
    }
}

/// Whether every cell without a mine is open and every mine is flagged.
pub open spec fn solved(b: BoardView) -> bool {
    forall|p: Spot|
        b.in_bounds(p) ==> if (#[trigger] b.at(p)).mine() {
            b.at(p).flagged()
        } else {
            b.at(p).visible()
        }
}

/// A board on which every safe cell is open and every mine is flagged,
/// with as many flags as mines asked for, is won.
pub proof fn law_solved_is_won(b: BoardView)
    requires
        b.wf(),
        b.counts_match(),
        solved(b),
        b.flags == b.mines,
    ensures
        b.won(),
{
    let n = b.cells.len();
    let shown = b.shows(CellType::Visible);
    let flagged = b.shows(CellType::Flag);
    let either = |i: int| shown(i) || flagged(i);
    assert forall|i: int| 0 <= i < n implies #[trigger] either(i) by {
        lemma_spot_of_index(b, i);
        let c = b.at(b.spot(i));
    }
    lemma_count_full(n, either);
    lemma_count_disjoint(n, shown, flagged, either);
}

/// A won board on which no mine is open, and which holds as many mines
/// as it was asked to, has every safe cell open and every mine flagged.
pub proof fn law_won_is_solved(b: BoardView)
    requires
        b.wf(),
        b.counts_match(),
        b.no_mine_shown(),
        b.mine_total() == b.mines,
        b.won(),
    ensures
        solved(b),
{
    let n = b.cells.len();
    let shown = b.shows(CellType::Visible);
    let flagged = b.shows(CellType::Flag);
    let either = |i: int| shown(i) || flagged(i);
    lemma_count_disjoint(n, shown, flagged, either);
    lemma_count_full(n, either);
    lemma_grid(b.width, b.height);
    assert forall|i: int| 0 <= i < n && (b.mined())(i) implies #[trigger] flagged(i) by {
        lemma_spot_of_index(b, i);
        let c = b.at(b.spot(i));
        assert(either(i));
    }
    lemma_count_subset(n, b.mined(), flagged);
    assert forall|p: Spot| b.in_bounds(p) implies if (#[trigger] b.at(p)).mine() {
        b.at(p).flagged()
    } else {
        b.at(p).visible()
    } by {
        let i = index_of(b.width, p);
        assert(either(i));
        assert((b.mined())(i) == flagged(i));
    }
}

/// A second reveal on a cell that the first found open changes nothing
/// and ends as the first did.
pub proof fn law_reveal_open_twice(b: BoardView)
    requires
        b.cells.len() == b.width * b.height,
        !b.is_empty(),
        b.in_bounds(b.cur),
        b.at(b.cur).visible(),
    ensures
        b.dug().0.dug() == b.dug(),
{
    let cell = b.at(b.cur);
    lemma_grid(b.width, b.height);
    lemma_apart(b.width, b.height, b.cur);
    if cell.mine() {
        let once = b.with_cell(b.cur, cell.with_value(DETONATED));
        assert(once.with_cell(once.cur, once.at(once.cur).with_value(DETONATED)).cells
            =~= once.cells);
    } else {
        let once = b.chorded();
        law_chord_twice(b);
        lemma_detonated_cells(b);
        lemma_opened_cells(b.detonated(), b.flood(b.chord_sources()));
        let c = once.at(b.cur);
        let d = b.detonated().at(b.cur);
        assert(!b.struck(b.cur));
    }
}

/// A cell with no mine around it has no mine on any of its neighbours.
proof fn lemma_none_around(b: BoardView, p: Spot, q: Spot)
    requires
        b.adjacent_mines(p) == 0,
        touches(p, q),
    ensures
        b.mine_at(q) == 0,
{
    let dx = q.0 - p.0;
    let dy = q.1 - p.1;
    if dy == -1 {
        if dx == -1 {
            assert(q == (p.0 - 1, p.1 - 1));
        } else if dx == 0 {
            assert(q == (p.0, p.1 - 1));
        } else {
            assert(q == (p.0 + 1, p.1 - 1));
        }
    } else if dy == 0 {
        if dx == -1 {
            assert(q == (p.0 - 1, p.1));
        } else {
            assert(q == (p.0 + 1, p.1));
        }
    } else {
        if dx == -1 {
            assert(q == (p.0 - 1, p.1 + 1));
        } else if dx == 0 {
            assert(q == (p.0, p.1 + 1));
        } else {
            assert(q == (p.0 + 1, p.1 + 1));
        }
    }
}

/// Where a trail ends, on a board whose values are in order: at its
/// start, or next to a cell that has no mine around it, and so not on a
/// mine.
proof fn lemma_trail_end_safe(b: BoardView, t: Seq<Spot>)
    requires
        b.wf(),
        b.generated,
        b.is_trail(t),
        !b.at(t.first()).mine(),
    ensures
        !b.at(t.last()).mine(),
{
    if t.len() > 1 {
        let p = t[t.len() - 2];
        let q = t[t.len() - 1];
        assert(b.passable(p) && b.passable(q));
        assert(b.at(p).value == 0 && touches(p, q));
        assert(b.at(p).value == b.adjacent_mines(p));
        lemma_none_around(b, p, q);
    }
}

/// A reveal on a board with its mines laid opens no mine and moves
/// none.
pub proof fn law_reveal_opens_no_mine(b: BoardView)
    requires
        b.wf(),
        b.generated,
        b.no_mine_shown(),
    ensures
        b.dug().0.no_mine_shown(),
        b.dug().0.mine_total() == b.mine_total(),
{
    let after = b.dug().0;
    lemma_grid(b.width, b.height);
    if !b.is_empty() {
        lemma_apart(b.width, b.height, b.cur);
        let cell = b.at(b.cur);
        if cell.flagged() {
        } else if cell.mine() {
            assert forall|p: Spot| after.in_bounds(p) implies (#[trigger] after.at(p)).mine()
                == b.at(p).mine() && after.at(p).visible() == b.at(p).visible() by {}
        } else {
            let sources = if cell.visible() {
                b.chord_sources()
            } else {
                set![b.cur]
            };
            let base = if cell.visible() {
                b.detonated()
            } else {
                b
            };
            let region = b.flood(sources);
            lemma_detonated_cells(b);
            lemma_opened_cells(base, region);
            assert(after == base.opened(region));
            assert forall|p: Spot| after.in_bounds(p) implies (#[trigger] after.at(p)).mine()
                == b.at(p).mine() && (after.at(p).visible() ==> b.at(p).visible()
                || !b.at(p).mine()) by {
                let c = base.at(p);
                if region.contains(p) {
                    let s = choose|s: Spot| sources.contains(s) && #[trigger] b.reaches(s, p);
                    let t = choose|t: Seq<Spot>|
                        #[trigger] b.is_trail(t) && t.first() == s && t.last() == p;
                    lemma_trail_end_safe(b, t);
                }
            }
        }
    }
    assert forall|p: Spot| after.in_bounds(p) && (#[trigger] after.at(p)).mine() implies !after.at(
        p,
    ).visible() by {
        let c = b.at(p);
    }
    assert forall|i: int| 0 <= i < b.cells.len() implies #[trigger] (after.mined())(i) == (
    b.mined())(i) by {
        lemma_spot_of_index(b, i);
        let c = after.at(b.spot(i));
    }
    assert(after.cells.len() == b.cells.len());
    lemma_count_same(b.cells.len(), after.mined(), b.mined());
}

/// A board on which the mines were just laid has none of them open.
pub proof fn law_laid_covers_mines(pre: BoardView, b: BoardView)
    requires
        pre.wf(),
        b.laid_from(pre),
    ensures
        b.no_mine_shown(),
{
    lemma_grid(b.width, b.height);
    assert forall|p: Spot| b.in_bounds(p) && (#[trigger] b.at(p)).mine() implies !b.at(
        p,
    ).visible() by {
        assert(!pre.at(p).visible());
    }
}

/// Whether a game is being played on the board: the board is in order,
/// its counts agree with its cells, its mines are laid, as many as it
/// asks for, and none of them is open.
pub open spec fn in_play(b: BoardView) -> bool {
    &&& b.wf()
    &&& b.counts_match()
    &&& b.generated
    &&& b.no_mine_shown()
    &&& b.mine_total() == b.mines
}

/// While a game is played, the board counts as won if and only if every
/// cell without a mine is open, every mine is flagged, and there are as
/// many flags as mines.
pub proof fn law_win(b: BoardView)
    requires
        in_play(b),
    ensures
        b.won() <==> solved(b) && b.flags == b.mines,
{
    if b.won() {
        law_won_is_solved(b);
    }
    if solved(b) && b.flags == b.mines {
        law_solved_is_won(b);
    }
}

/// Laying the mines on a board that has room for all of them starts the
/// play.
pub proof fn law_laying_starts_play(pre: BoardView, b: BoardView)
    requires
        pre.wf(),
        pre.counts_match(),
        b.laid_from(pre),
        pre.mines <= pre.free_total(),
    ensures
        in_play(b),
{
    law_laid_covers_mines(pre, b);
    lemma_grid(b.width, b.height);
    assert forall|p: Spot| b.in_bounds(p) implies ((#[trigger] b.at(p)).sel <==> p == b.cur) by {
        assert(pre.at(p).sel <==> p == pre.cur);
    }
    lemma_count_same(b.cells.len(), b.shows(CellType::Visible), pre.shows(CellType::Visible));
    lemma_count_same(b.cells.len(), b.shows(CellType::Flag), pre.shows(CellType::Flag));
}

/// A reveal keeps the play going on the board, however the game ends.
pub proof fn law_reveal_keeps_play(b: BoardView)
    requires
        in_play(b),
    ensures
        in_play(b.dug().0),
{
    let after = b.dug().0;
    law_reveal_opens_no_mine(b);
    lemma_grid(b.width, b.height);
    if !b.is_empty() {
        lemma_apart(b.width, b.height, b.cur);
        let cell = b.at(b.cur);
        if cell.flagged() {
        } else if cell.mine() {
            lemma_set_off(b, b.cur);
        } else {
            let sources = if cell.visible() {
                b.chord_sources()
            } else {
                set![b.cur]
            };
            let base = if cell.visible() {
                b.detonated()
            } else {
                b
            };
            let region = b.flood(sources);
            lemma_detonated_cells(b);
            lemma_opened_cells(base, region);
            assert(after == base.opened(region));
            assert forall|p: Spot| b.in_bounds(p) implies (#[trigger] after.at(p)).sel == b.at(
                p,
            ).sel && after.at(p).mine() == b.at(p).mine() && (!b.at(p).mine() ==> after.at(
                p,
            ).value == b.at(p).value) && after.at(p).flagged() == b.at(p).flagged() by {
                let c = base.at(p);
            }
            assert forall|p: Spot| after.in_bounds(p) implies ((#[trigger] after.at(p)).sel <==> p
                == after.cur) by {
                assert(b.at(p).sel <==> p == b.cur);
            }
            assert forall|p: Spot|
                after.in_bounds(p) && !(#[trigger] after.at(p)).mine() implies after.at(p).value
                == after.adjacent_mines(p) by {
                assert(!b.at(p).mine());
                assert(b.at(p).value == b.adjacent_mines(p));
                assert(after.adjacent_mines(p) == b.adjacent_mines(p));
            }
            assert forall|i: int| 0 <= i < b.cells.len() implies #[trigger] (after.shows(
                CellType::Flag,
            ))(i) == (b.shows(CellType::Flag))(i) by {
                lemma_spot_of_index(b, i);
                let c = after.at(b.spot(i));
            }
            lemma_count_same(
                b.cells.len(),
                after.shows(CellType::Flag),
                b.shows(CellType::Flag),
            );
            lemma_count_same(
                b.cells.len(),
                after.shows(CellType::Visible),
                (BoardView { cells: after.cells, ..base }).shows(CellType::Visible),
            );
        }
    }
}

/// Flagging and moving the cursor keep the play going on the board.
pub proof fn law_flag_and_moves_keep_play(b: BoardView, to: Spot)
    requires
        in_play(b),
        b.in_bounds(to),
    ensures
        in_play(b.flag_toggled()),
        in_play(b.moved(to)),
{
    lemma_flag_toggled(b);
    lemma_moved(b, to);
    lemma_grid(b.width, b.height);
    if !b.is_empty() {
        lemma_apart(b.width, b.height, b.cur);
    }
    let f = b.flag_toggled();
    assert forall|p: Spot| f.in_bounds(p) && (#[trigger] f.at(p)).mine() implies !f.at(
        p,
    ).visible() by {
        let c = b.at(p);
    }
    let m = b.moved(to);
    assert forall|p: Spot| m.in_bounds(p) && (#[trigger] m.at(p)).mine() implies !m.at(
        p,
    ).visible() by {
        let c = b.at(p);
    }
}

} // verus!
