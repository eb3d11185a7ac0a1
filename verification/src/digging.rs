//! Opening cells: one cell with its cascade, a chord on an open cell,
//! and the reveal that the player asks for.

use crate::board::{Board, Pos};
use crate::cell::{CellType, DETONATED};
use crate::chord::{
    chording, lemma_cascade_opened, lemma_chord_end, lemma_chord_flood, lemma_chord_skip,
    lemma_chord_start, lemma_chord_strike, lemma_set_off, set_off,
};
use crate::counting::lemma_count_bound;
use crate::flood::{
    cascaded, kept, lemma_cascade_none, lemma_cascade_single, lemma_open_one,
    lemma_same_values_on, lemma_spread_end, lemma_spread_next, lemma_spread_start, open_one,
    same_values, spreading, stays_open,
};
use crate::model::{lemma_grid, touches, Spot};
use crate::ring::{holds, is_ring, place_of};
use vstd::prelude::*;

verus! {

impl Board {
    /// Opens the cell at `pos` unless it is open or flagged. If no mine
    /// lies around it, goes on to its neighbours in the same way.
    pub(crate) fn reveal_cell(&mut self, pos: Pos)
        requires
            old(self)@.wf(),
            old(self)@.generated,
            old(self)@.counts_match(),
            old(self)@.in_bounds(pos.spot()),
        ensures
            final(self)@.wf(),
            final(self)@.counts_match(),
            cascaded(old(self)@, final(self)@, pos.spot()),
            same_values(old(self)@, final(self)@),
            final(self)@.revealed >= old(self)@.revealed,
            final(self)@.revealed <= final(self)@.cells.len(),
        decreases old(self)@.cells.len() - old(self)@.revealed,
    {
        let ghost before = self@;
        let ghost from = pos.spot();
        proof {
            lemma_count_bound(before.cells.len(), before.shows(CellType::Visible));
        }
        let id = self.locate(pos);
        if self.cells[id].is_visible() || self.cells[id].is_flag() {
            proof {
                lemma_cascade_none(before, from);
            }
            return ;
        }
        proof {
            lemma_open_one(before, from);
        }
        self.cells[id].show();
        self.rev += 1;
        assert(self@ == open_one(before, from));
        if self.cells[id].get() == 0 {
            let around = self.get_neighbors(pos);
            let ghost first = self@;
            let ghost mut done = Set::<Spot>::empty();
            proof {
                lemma_spread_start(before, from);
            }
            let mut k: usize = 0;
            while k < around.len()
                invariant
                    k <= around.len(),
                    self@.wf(),
                    self@.generated,
                    self@.counts_match(),
                    spreading(before, self@, from, done),
                    same_values(before, self@),
                    is_ring(first, from, around@),
                    first.width == before.width,
                    first.height == before.height,
                    forall|j: int| 0 <= j < k ==> done.contains((#[trigger] around@[j]).spot()),
                    before == old(self)@,
                    before.revealed < self@.revealed <= self@.cells.len(),
                    before.cells.len() == self@.cells.len(),
                decreases around.len() - k,
            {
                let ghost mid = self@;
                let next = around[k];
                assert(first.in_bounds(next.spot()));
                assert(Set::new(|q: Spot| touches(q, from)).contains(next.spot()));
                self.reveal_cell(next);
                proof {
                    lemma_spread_next(before, mid, self@, from, next.spot(), done);
                    lemma_same_values_on(before, mid, self@);
                    done = done.insert(next.spot());
                }
                k += 1;
            }
            proof {
                assert forall|q: Spot| self@.in_bounds(q) && touches(from, q) implies done.contains(
                    q,
                ) by {
                    assert(Set::new(|q: Spot| touches(q, from)).contains(q));
                    assert(holds(around@, q));
                    assert(done.contains(around@[place_of(around@, q)].spot()));
                }
                lemma_spread_end(before, self@, from, done);
            }
        } else {
            proof {
                lemma_cascade_single(before, from);
            }
        }
    }

    /// Chords the cursor's cell: sets off the unflagged mines around it,
    /// opens the unflagged safe cells around it, each with its cascade,
    /// and says whether the game goes on.
    fn reveal_vis(&mut self) -> (alive: bool)
        requires
            old(self)@.wf(),
            old(self)@.generated,
            old(self)@.counts_match(),
            !old(self)@.is_empty(),
        ensures
            final(self)@ == old(self)@.chorded(),
            alive == (forall|q: Spot| !#[trigger] old(self)@.struck(q)),
            final(self)@.wf(),
            final(self)@.counts_match(),
            final(self)@.revealed >= old(self)@.revealed,
            kept(old(self)@, final(self)@),
    {
        let ghost before = self@;
        let mut ret = true;
        let around = self.get_neighbors(self.cur);
        let ghost mut done = Set::<Spot>::empty();
        proof {
            lemma_chord_start(before);
        }
        let mut k: usize = 0;
        while k < around.len()
            invariant
                k <= around.len(),
                self@.wf(),
                self@.generated,
                self@.counts_match(),
                chording(before, self@, done, ret),
                is_ring(before, before.cur, around@),
                forall|j: int| 0 <= j < k ==> done.contains((#[trigger] around@[j]).spot()),
                before.cells.len() == before.width * before.height,
                self@.revealed >= before.revealed,
                kept(before, self@),
            decreases around.len() - k,
        {
            let ghost mid = self@;
            let next = around[k];
            assert(before.in_bounds(next.spot()));
            assert(Set::new(|q: Spot| touches(q, before.cur)).contains(next.spot()));
            let id = self.locate(next);
            assert(self.cells[id as int] == mid.at(next.spot()));
            if self.cells[id].is_flag() {
                proof {
                    lemma_chord_skip(before, mid, next.spot(), done, ret);
                }
            } else if self.cells[id].is_mine() {
                self.cells[id].set(DETONATED);
                proof {
                    assert(self@ == set_off(mid, next.spot()));
                    lemma_set_off(mid, next.spot());
                    lemma_chord_strike(before, mid, next.spot(), done, ret);
                    assert forall|p: Spot| before.in_bounds(p) implies (#[trigger] self@.at(
                        p,
                    )).mine() == before.at(p).mine() && (before.at(p).visible() ==> self@.at(
                        p,
                    ).visible()) by {
                        let m = mid.at(p);
                    }
                }
                ret = false;
            } else {
                self.reveal_cell(next);
                proof {
                    assert(before.chord_sources().contains(next.spot()));
                    lemma_chord_flood(before, mid, self@, next.spot(), done, ret);
                    assert forall|p: Spot| before.in_bounds(p) implies (#[trigger] self@.at(
                        p,
                    )).mine() == before.at(p).mine() && (before.at(p).visible() ==> self@.at(
                        p,
                    ).visible()) by {
                        let m = mid.at(p);
                    }
                }
            }
            proof {
                done = done.insert(next.spot());
            }
            k += 1;
        }
        proof {
            assert forall|q: Spot|
                before.in_bounds(q) && touches(q, before.cur) implies done.contains(q) by {
                assert(Set::new(|q: Spot| touches(q, before.cur)).contains(q));
                assert(holds(around@, q));
                assert(done.contains(around@[place_of(around@, q)].spot()));
            }
            lemma_chord_end(before, self@, done, ret);
        }
        ret
    }

    /// Opens the cursor's cell and says whether the game goes on.
    ///
    /// The first call lays the mines, and keeps them away from the cursor
    /// and the cells around it. A flagged cell stays closed. A mine goes
    /// off, and the game is lost. A cell that is open already is chorded:
    /// the unflagged cells around it are opened, and the game is lost if
    /// a mine is among them. Any other cell is opened; if no mine lies
    /// around it the cells around it are opened in the same way, and so
    /// on.
    pub fn reveal_at_cursor(&mut self) -> (alive: bool)
        requires
            old(self)@.wf(),
            old(self)@.counts_match(),
        ensures
            final(self)@.wf(),
            final(self)@.counts_match(),
            final(self)@.generated,
            old(self)@.reveal_gives(final(self)@, alive),
            old(self)@.generated ==> final(self)@ == old(self)@.dug().0,
            old(self)@.generated ==> alive == old(self)@.dug().1,
            !old(self)@.generated ==> final(self)@.safe_start(),
            final(self)@.revealed >= old(self)@.revealed,
            stays_open(old(self)@, final(self)@),
    {
        if !self.generated {
            self.generate();
        }
        let ghost ready = self@;
        proof {
            assert(ready.ready_from(old(self)@));
            lemma_grid(ready.width, ready.height);
            assert forall|p: Spot| old(self)@.in_bounds(p) implies (#[trigger] ready.at(
                p,
            )).visible() == old(self)@.at(p).visible() by {}
        }
        if self.is_empty() {
            return true;
        }
        let id = self.locate(self.cur);
        if self.cells[id].is_flag() {
            return true;
        }
        if self.cells[id].is_mine() {
            proof {
                lemma_set_off(ready, ready.cur);
            }
            self.cells[id].set(DETONATED);
            return false;
        }
        if self.cells[id].is_visible() {
            return self.reveal_vis();
        }
        self.reveal_cell(self.cur);
        proof {
            lemma_cascade_opened(ready, self@, ready.cur);
        }
        true
    }
}

} // verus!
