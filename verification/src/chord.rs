//! Why opening a cell, and chording an open one, give the boards that
//! the model names.

use crate::cell::{CellType, DETONATED};
use crate::counting::lemma_count_same;
use crate::facts::lemma_with_cell_tally;
use crate::flood::{
    cascaded, fresh_open, grew, lemma_cascade_exact, lemma_covered, lemma_trail_back, same_values,
    sealed_but,
};
use crate::model::{
    index_of, lemma_apart, lemma_grid, lemma_index_of_spot, lemma_spot_of_index, touches,
    BoardView, Spot,
};
use vstd::prelude::*;

verus! {

/// A board that differs from `base` only in that the cells of `region`
/// are shown, and that counts its open cells rightly, is `base` with
/// the region opened.
pub proof fn lemma_matches_opened(base: BoardView, after: BoardView, region: Set<Spot>)
    requires
        base.cells.len() == base.width * base.height,
        after == (BoardView { cells: after.cells, revealed: after.revealed, ..base }),
        after.cells.len() == base.cells.len(),
        after.revealed == after.tally(CellType::Visible),
        forall|q: Spot|
            base.in_bounds(q) ==> #[trigger] after.at(q) == (if region.contains(q) {
                base.at(q).shown()
            } else {
                base.at(q)
            }),
    ensures
        after == base.opened(region),
{
    let model = base.opened(region);
    assert forall|i: int| 0 <= i < after.cells.len() implies after.cells[i] == model.cells[i] by {
        lemma_spot_of_index(base, i);
        let q = base.spot(i);
        assert(after.at(q) == after.cells[i]);
    }
    assert(after.cells =~= model.cells);
    lemma_count_same(
        after.cells.len(),
        after.shows(CellType::Visible),
        (BoardView { cells: model.cells, ..base }).shows(CellType::Visible),
    );
}

/// A cascade from one cell gives the board with the flood from that
/// cell opened.
pub proof fn lemma_cascade_opened(before: BoardView, after: BoardView, from: Spot)
    requires
        before.cells.len() == before.width * before.height,
        cascaded(before, after, from),
        same_values(before, after),
        after.revealed == after.tally(CellType::Visible),
    ensures
        after == before.opened(before.flood(set![from])),
{
    let region = before.flood(set![from]);
    lemma_cascade_exact(before, after, from);
    assert forall|q: Spot| before.in_bounds(q) implies #[trigger] after.at(q) == (
    if region.contains(q) {
        before.at(q).shown()
    } else {
        before.at(q)
    }) by {
        assert(fresh_open(before, after, q) <==> before.reaches(from, q));
        if region.contains(q) {
            let s = choose|s: Spot| set![from].contains(s) && #[trigger] before.reaches(s, q);
            assert(s == from);
        }
        if before.reaches(from, q) {
            assert(set![from].contains(from));
        }
        assert(region.contains(q) <==> fresh_open(before, after, q));
    }
    lemma_matches_opened(before, after, region);
}

/// The cells of a board on which the mines around the cursor were set
/// off, position by position.
pub proof fn lemma_detonated_cells(b: BoardView)
    requires
        b.cells.len() == b.width * b.height,
    ensures
        forall|q: Spot|
            b.in_bounds(q) ==> #[trigger] b.detonated().at(q) == (if b.struck(q) {
                b.at(q).with_value(DETONATED)
            } else {
                b.at(q)
            }),
{
    lemma_grid(b.width, b.height);
    lemma_index_of_spot(b);
    assert forall|q: Spot| b.in_bounds(q) implies #[trigger] b.detonated().at(q) == (if b.struck(
        q,
    ) {
        b.at(q).with_value(DETONATED)
    } else {
        b.at(q)
    }) by {
        let i = index_of(b.width, q);
        assert(b.spot(i) == q);
    }
}

/// The cells of a board on which a region was opened, position by
/// position.
pub proof fn lemma_opened_cells(b: BoardView, region: Set<Spot>)
    requires
        b.cells.len() == b.width * b.height,
    ensures
        forall|q: Spot|
            b.in_bounds(q) ==> #[trigger] b.opened(region).at(q) == (if region.contains(q) {
                b.at(q).shown()
            } else {
                b.at(q)
            }),
{
    lemma_grid(b.width, b.height);
    lemma_index_of_spot(b);
    assert forall|q: Spot| b.in_bounds(q) implies #[trigger] b.opened(region).at(q) == (
    if region.contains(q) {
        b.at(q).shown()
    } else {
        b.at(q)
    }) by {
        let i = index_of(b.width, q);
        assert(b.spot(i) == q);
    }
}

/// The board with the mine at `p` set off.
pub open spec fn set_off(b: BoardView, p: Spot) -> BoardView {
    b.with_cell(p, b.at(p).with_value(DETONATED))
}

/// Setting off a mine keeps the board in order and the counts in step.
pub proof fn lemma_set_off(b: BoardView, p: Spot)
    requires
        b.wf(),
        b.generated,
        b.in_bounds(p),
        b.at(p).mine(),
    ensures
        set_off(b, p).wf(),
        b.counts_match() ==> set_off(b, p).counts_match(),
        forall|q: Spot|
            b.in_bounds(q) ==> #[trigger] set_off(b, p).at(q) == (if q == p {
                b.at(q).with_value(DETONATED)
            } else {
                b.at(q)
            }),
        set_off(b, p).mine_total() == b.mine_total(),
{
    let n = set_off(b, p);
    lemma_grid(b.width, b.height);
    lemma_apart(b.width, b.height, p);
    lemma_with_cell_tally(b, p, b.at(p).with_value(DETONATED), CellType::Visible);
    lemma_with_cell_tally(b, p, b.at(p).with_value(DETONATED), CellType::Flag);
    crate::facts::lemma_with_cell_mines(b, p, b.at(p).with_value(DETONATED));
    assert forall|q: Spot| n.in_bounds(q) implies ((#[trigger] n.at(q)).sel <==> q == n.cur) by {
        assert(b.at(q).sel <==> q == b.cur);
    }
    assert forall|q: Spot| b.in_bounds(q) implies (#[trigger] n.at(q)).mine() == b.at(
        q,
    ).mine() by {}
    assert forall|q: Spot| n.in_bounds(q) && !(#[trigger] n.at(q)).mine() implies n.at(q).value
        == n.adjacent_mines(q) by {
        assert(!b.at(q).mine());
        assert(b.adjacent_mines(q) == n.adjacent_mines(q));
    }
}

/// Whether a chord stands as it does while it visits the cells around
/// the cursor, of which those in `done` have had their turn: the mines
/// among them are set off, cascades have run from the safe ones, and
/// `alive` says that no mine was among them.
pub open spec fn chording(before: BoardView, now: BoardView, done: Set<Spot>, alive: bool) -> bool {
    &&& grew(before, now)
    &&& forall|p: Spot|
        before.in_bounds(p) ==> (#[trigger] now.at(p)).value == (if before.struck(p)
            && done.contains(p) {
            DETONATED
        } else {
            before.at(p).value
        })
    &&& forall|p: Spot| #[trigger]
        fresh_open(before, now, p) ==> before.flood(before.chord_sources()).contains(p)
    &&& sealed_but(before, now, None)
    &&& forall|q: Spot|
        done.contains(q) && before.chord_sources().contains(q) ==> !#[trigger] now.passable(q)
    &&& alive == (forall|q: Spot| done.contains(q) ==> !#[trigger] before.struck(q))
}

/// A chord starts with nothing done.
pub proof fn lemma_chord_start(b: BoardView)
    ensures
        chording(b, b, Set::empty(), true),
{
}

/// A flagged cell around the cursor is passed over.
pub proof fn lemma_chord_skip(
    before: BoardView,
    now: BoardView,
    next: Spot,
    done: Set<Spot>,
    alive: bool,
)
    requires
        chording(before, now, done, alive),
        before.in_bounds(next),
        before.at(next).flagged(),
    ensures
        chording(before, now, done.insert(next), alive),
{
    let more = done.insert(next);
    assert(!before.struck(next));
    assert(!before.chord_sources().contains(next));
    assert forall|p: Spot| before.in_bounds(p) implies (#[trigger] now.at(p)).value == (
    if before.struck(p) && more.contains(p) {
        DETONATED
    } else {
        before.at(p).value
    }) by {}
    if alive {
        assert forall|q: Spot| more.contains(q) implies !#[trigger] before.struck(q) by {
            if q != next {
                assert(done.contains(q));
            }
        }
    } else {
        let q = choose|q: Spot| done.contains(q) && #[trigger] before.struck(q);
        assert(more.contains(q));
    }
}

/// An unflagged mine around the cursor is set off, and the game is lost.
pub proof fn lemma_chord_strike(
    before: BoardView,
    now: BoardView,
    next: Spot,
    done: Set<Spot>,
    alive: bool,
)
    requires
        before.cells.len() == before.width * before.height,
        chording(before, now, done, alive),
        before.struck(next),
    ensures
        chording(before, set_off(now, next), done.insert(next), false),
{
    let after = set_off(now, next);
    let more = done.insert(next);
    lemma_grid(before.width, before.height);
    lemma_apart(before.width, before.height, next);
    assert forall|p: Spot| before.in_bounds(p) implies #[trigger] after.at(p) == (if p == next {
        now.at(p).with_value(DETONATED)
    } else {
        now.at(p)
    }) by {}
    assert forall|p: Spot| before.in_bounds(p) implies {
        &&& (#[trigger] after.at(p)).sel == before.at(p).sel
        &&& (after.at(p).cell_type == before.at(p).cell_type || (before.passable(p) && after.at(
            p,
        ).visible()))
        &&& (after.at(p).value == 0 <==> before.at(p).value == 0)
    } by {
        let c = now.at(p);
    }
    assert forall|p: Spot| after.passable(p) == now.passable(p) by {
        if before.in_bounds(p) {
            let c = after.at(p);
        }
    }
    assert forall|p: Spot| before.in_bounds(p) implies (#[trigger] after.at(p)).value == (
    if before.struck(p) && more.contains(p) {
        DETONATED
    } else {
        before.at(p).value
    }) by {
        let c = now.at(p);
    }
    assert forall|p: Spot| #[trigger] fresh_open(before, after, p) implies before.flood(
        before.chord_sources(),
    ).contains(p) by {
        assert(fresh_open(before, now, p));
    }
    assert forall|p: Spot, q: Spot|
        fresh_open(before, after, p) && before.at(p).value == 0 && Some(p) != None::<Spot>
            && after.in_bounds(q) && #[trigger] touches(p, q) implies !after.passable(q) by {
        assert(fresh_open(before, now, p));
        assert(!now.passable(q));
    }
    assert forall|q: Spot|
        more.contains(q) && before.chord_sources().contains(q) implies !#[trigger] after.passable(
        q,
    ) by {
        assert(q != next);
        assert(!now.passable(q));
    }
    assert(more.contains(next));
}

/// A cascade from a safe cell around the cursor keeps the chord as it
/// stands, with that cell done.
pub proof fn lemma_chord_flood(
    before: BoardView,
    mid: BoardView,
    after: BoardView,
    next: Spot,
    done: Set<Spot>,
    alive: bool,
)
    requires
        chording(before, mid, done, alive),
        cascaded(mid, after, next),
        same_values(mid, after),
        before.chord_sources().contains(next),
    ensures
        chording(before, after, done.insert(next), alive),
{
    let more = done.insert(next);
    assert forall|p: Spot| before.in_bounds(p) implies {
        &&& (#[trigger] after.at(p)).sel == before.at(p).sel
        &&& (after.at(p).cell_type == before.at(p).cell_type || (before.passable(p) && after.at(
            p,
        ).visible()))
        &&& (after.at(p).value == 0 <==> before.at(p).value == 0)
    } by {
        let m = mid.at(p);
    }
    assert(grew(before, after));
    assert forall|p: Spot| !mid.passable(p) && mid.in_bounds(p) implies !after.passable(p) by {
        let c = after.at(p);
        let m = mid.at(p);
    }
    assert(!before.struck(next));
    assert forall|p: Spot| before.in_bounds(p) implies (#[trigger] after.at(p)).value == (
    if before.struck(p) && more.contains(p) {
        DETONATED
    } else {
        before.at(p).value
    }) by {
        let m = mid.at(p);
    }
    assert forall|p: Spot| #[trigger] fresh_open(before, after, p) implies before.flood(
        before.chord_sources(),
    ).contains(p) by {
        if fresh_open(before, mid, p) {
        } else {
            assert(fresh_open(mid, after, p));
            assert(mid.reaches(next, p));
            let t = choose|t: Seq<Spot>|
                #[trigger] mid.is_trail(t) && t.first() == next && t.last() == p;
            lemma_trail_back(before, mid, t);
            assert(before.reaches(next, p));
        }
    }
    assert forall|p: Spot, q: Spot|
        fresh_open(before, after, p) && before.at(p).value == 0 && Some(p) != None::<Spot>
            && after.in_bounds(q) && #[trigger] touches(p, q) implies !after.passable(q) by {
        if fresh_open(before, mid, p) {
            assert(!mid.passable(q));
        } else {
            assert(fresh_open(mid, after, p));
            let m = mid.at(p);
            assert(mid.at(p).value == 0);
        }
    }
    assert forall|q: Spot|
        more.contains(q) && before.chord_sources().contains(q) implies !#[trigger] after.passable(
        q,
    ) by {
        if q != next {
            assert(!mid.passable(q));
        }
    }
    if alive {
        assert forall|q: Spot| more.contains(q) implies !#[trigger] before.struck(q) by {
            if q != next {
                assert(done.contains(q));
            }
        }
    } else {
        let q = choose|q: Spot| done.contains(q) && #[trigger] before.struck(q);
        assert(more.contains(q));
    }
}

/// A chord that has visited every cell around the cursor gives the
/// board that the model names, and the game goes on if no unflagged
/// mine lay there.
pub proof fn lemma_chord_end(before: BoardView, after: BoardView, done: Set<Spot>, alive: bool)
    requires
        before.cells.len() == before.width * before.height,
        chording(before, after, done, alive),
        forall|q: Spot| before.in_bounds(q) && touches(q, before.cur) ==> done.contains(q),
        after.revealed == after.tally(CellType::Visible),
    ensures
        after == before.chorded(),
        alive == (forall|q: Spot| !#[trigger] before.struck(q)),
{
    let sources = before.chord_sources();
    let region = before.flood(sources);
    let base = before.detonated();
    lemma_detonated_cells(before);
    assert forall|p: Spot| region.contains(p) implies fresh_open(before, after, p) by {
        let s = choose|s: Spot| sources.contains(s) && #[trigger] before.reaches(s, p);
        let t = choose|t: Seq<Spot>|
            #[trigger] before.is_trail(t) && t.first() == s && t.last() == p;
        assert(done.contains(s));
        assert(!after.passable(s));
        lemma_covered(before, after, t, t.len() - 1);
        assert(before.passable(t[t.len() - 1]));
    }
    assert forall|q: Spot| base.in_bounds(q) implies #[trigger] after.at(q) == (if region.contains(
        q,
    ) {
        base.at(q).shown()
    } else {
        base.at(q)
    }) by {
        assert(region.contains(q) <==> fresh_open(before, after, q));
        let d = base.at(q);
        let c = before.at(q);
        assert(before.struck(q) ==> done.contains(q));
    }
    lemma_matches_opened(base, after, region);
    if alive {
        assert forall|q: Spot| !#[trigger] before.struck(q) by {
            if before.struck(q) {
                assert(done.contains(q));
            }
        }
    } else {
        let q = choose|q: Spot| done.contains(q) && #[trigger] before.struck(q);
    }
}

} // verus!
