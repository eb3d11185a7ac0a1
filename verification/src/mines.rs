//! Laying the mines: one at a place that is given, or as many as the
//! board asks for at places drawn by chance.

use crate::board::{Board, Pos};
use crate::cell::{DETONATED, MINE};
use crate::counting::lemma_count_zero;
use crate::laying::{
    lemma_cells_equal, lemma_mine_laid, lemma_no_room, lemma_started, lemma_with_mine_cells,
};
use crate::model::{lemma_apart, lemma_grid, lemma_spot_of_index, near, touches, BoardView, Spot};
use crate::random::below;
use crate::ring::{holds, is_ring, place_of};
use vstd::prelude::*;

verus! {

impl Board {
    /// Counts one more mine on each cell around `pos`.
    fn inc_neighbors(&mut self, pos: Pos)
        requires
            old(self)@.cells.len() == old(self)@.width * old(self)@.height,
        ensures
            final(self)@ == (BoardView { cells: final(self)@.cells, ..old(self)@ }),
            final(self)@.cells.len() == old(self)@.cells.len(),
            forall|q: Spot|
                old(self)@.in_bounds(q) ==> #[trigger] final(self)@.at(q) == (if touches(
                    q,
                    pos.spot(),
                ) {
                    old(self)@.at(q).incremented()
                } else {
                    old(self)@.at(q)
                }),
    {
        let around = self.get_neighbors(pos);
        let ghost before = self@;
        let mut k: usize = 0;
        while k < around.len()
            invariant
                k <= around.len(),
                is_ring(before, pos.spot(), around@),
                before.cells.len() == before.width * before.height,
                self@ == (BoardView { cells: self@.cells, ..before }),
                self@.cells.len() == before.cells.len(),
                forall|q: Spot|
                    before.in_bounds(q) ==> #[trigger] self@.at(q) == (if holds(
                        around@.take(k as int),
                        q,
                    ) {
                        before.at(q).incremented()
                    } else {
                        before.at(q)
                    }),
            decreases around.len() - k,
        {
            let ghost now = self@;
            let target = around[k];
            assert(before.in_bounds(target.spot()));
            let id = self.locate(target);
            self.cells[id].inc();
            proof {
                lemma_apart(before.width, before.height, target.spot());
                lemma_grid(before.width, before.height);
                let short = around@.take(k as int);
                let long = around@.take(k + 1);
                assert(long[k as int] == target);
                if holds(short, target.spot()) {
                    let j = place_of(short, target.spot());
                    assert(around@[j] == short[j]);
                    assert(around@[j] != around@[k as int]);
                }
                assert forall|q: Spot| before.in_bounds(q) implies #[trigger] self@.at(q) == (
                if holds(long, q) {
                    before.at(q).incremented()
                } else {
                    before.at(q)
                }) by {
                    assert(now.at(q) == (if holds(short, q) {
                        before.at(q).incremented()
                    } else {
                        before.at(q)
                    }));
                    if q != target.spot() {
                        if holds(short, q) {
                            let j = place_of(short, q);
                            assert(long[j] == short[j]);
                        }
                        if holds(long, q) {
                            let j = place_of(long, q);
                            assert(short[j] == long[j]);
                        }
                    }
                }
            }
            k += 1;
        }
        proof {
            assert(around@.take(around.len() as int) =~= around@);
            assert forall|q: Spot| before.in_bounds(q) implies holds(around@, q) == touches(
                q,
                pos.spot(),
            ) by {
                if holds(around@, q) {
                    let j = place_of(around@, q);
                    assert(Set::new(|r: Spot| touches(r, pos.spot())).contains(around@[j].spot()));
                }
                if touches(q, pos.spot()) {
                    assert(Set::new(|r: Spot| touches(r, pos.spot())).contains(q));
                }
            }
        }
    }

    /// Whether `pos` is the cursor or next to it.
    fn guarded(&self, pos: Pos) -> (b: bool)
        ensures
            b == near(pos.spot(), self.cur.spot()),
    {
        let dx = if pos.x > self.cur.x {
            pos.x - self.cur.x
        } else {
            self.cur.x - pos.x
        };
        let dy = if pos.y > self.cur.y {
            pos.y - self.cur.y
        } else {
            self.cur.y - pos.y
        };
        dx <= 1 && dy <= 1
    }

    /// Tries to lay a mine at `pos` and says whether it went down. A
    /// position off the board, one that holds a mine already, the cursor
    /// and the cells around the cursor take none. From this call on the
    /// mines of the board count as laid.
    pub fn place_mine(&mut self, pos: Pos) -> (placed: bool)
        requires
            old(self)@.wf(),
        ensures
            final(self)@ == old(self)@.mine_laid(pos.spot()),
            placed == old(self)@.free(pos.spot()),
            final(self)@.wf(),
            old(self)@.counts_match() ==> final(self)@.counts_match(),
    {
        proof {
            lemma_mine_laid(self@, pos.spot());
        }
        self.generated = true;
        if pos.x >= self.size.x || pos.y >= self.size.y {
            return false;
        }
        let id = self.locate(pos);
        if self.cells[id].is_mine() || self.guarded(pos) {
            return false;
        }
        let ghost started = self@;
        self.cells[id].set(MINE);
        let ghost marked = self@;
        self.inc_neighbors(pos);
        proof {
            lemma_with_mine_cells(started, pos.spot());
            lemma_grid(started.width, started.height);
            lemma_apart(started.width, started.height, pos.spot());
            assert forall|q: Spot| started.in_bounds(q) implies #[trigger] self@.at(q)
                == started.with_mine(pos.spot()).at(q) by {
                assert(marked.at(q) == if q == pos.spot() {
                    started.at(q).with_value(MINE)
                } else {
                    started.at(q)
                });
            }
            lemma_cells_equal(self@, started.with_mine(pos.spot()));
        }
        true
    }

    /// A cell on which a mine may be laid, if there is one.
    fn first_free(&self) -> (found: Option<Pos>)
        requires
            self@.wf(),
        ensures
            match found {
                Some(pos) => self@.free(pos.spot()),
                None => self@.free_total() == 0,
            },
    {
        let mut y: usize = 0;
        while y < self.size.y
            invariant
                self@.wf(),
                y <= self.size.y,
                forall|q: Spot| 0 <= q.1 < y ==> !#[trigger] self@.free(q),
            decreases self.size.y - y,
        {
            let mut x: usize = 0;
            while x < self.size.x
                invariant
                    self@.wf(),
                    y < self.size.y,
                    x <= self.size.x,
                    forall|q: Spot| 0 <= q.1 < y ==> !#[trigger] self@.free(q),
                    forall|q: Spot| q.1 == y && 0 <= q.0 < x ==> !#[trigger] self@.free(q),
                decreases self.size.x - x,
            {
                let pos = Pos::new(x, y);
                let id = self.locate(pos);
                if !self.cells[id].is_mine() && !self.guarded(pos) {
                    return Some(pos);
                }
                x += 1;
            }
            y += 1;
        }
        proof {
            lemma_no_room(self@);
        }
        None
    }

    /// Lays the mines: as many as the board is meant to hold, or as many
    /// as there is room for if that is less. Cells are drawn at random
    /// and turned down while they hold a mine already or lie at or next
    /// to the cursor. Should as many draws as the board has cells all be
    /// turned down, the mine goes to the first cell that can take it.
    pub(crate) fn generate(&mut self)
        requires
            old(self)@.wf(),
            !old(self)@.generated,
        ensures
            final(self)@.laid_from(old(self)@),
            final(self)@.wf(),
            old(self)@.counts_match() ==> final(self)@.counts_match(),
    {
        let ghost pre = self@;
        self.generated = true;
        let ghost started = self@;
        proof {
            lemma_started(pre);
            lemma_count_zero(pre.cells.len(), pre.mined());
            lemma_grid(pre.width, pre.height);
            assert forall|i: int| 0 <= i < pre.cells.len() implies !#[trigger] (pre.mined())(i) by {
                lemma_spot_of_index(pre, i);
                assert(!pre.at(pre.spot(i)).mine());
            }
            assert forall|i: int| 0 <= i < pre.cells.len() implies (#[trigger] pre.cells[i]).value
                != DETONATED by {
                lemma_spot_of_index(pre, i);
                assert(pre.at(pre.spot(i)).value == 0);
            }
            assert forall|p: Spot| started.in_bounds(p) implies !(#[trigger] started.at(
                p,
            )).mine() by {
                assert(!pre.at(p).mine());
            }
        }
        let mut rng = rand::thread_rng();
        let limit = self.cells.len();
        let mut laid: usize = 0;
        while laid < self.mines
            invariant_except_break
                laid <= self.mines,
                self@.mine_total() == laid,
                self@.free_total() + laid == pre.free_total(),
            invariant
                self@.wf(),
                self@ == (BoardView { cells: self@.cells, ..started }),
                started == (BoardView { generated: true, ..pre }),
                !pre.generated,
                limit == self@.cells.len(),
                self@.cells.len() == pre.cells.len(),
                pre.counts_match() ==> self@.counts_match(),
                forall|i: int|
                    0 <= i < self@.cells.len() ==> (#[trigger] self@.cells[i]).cell_type
                        == pre.cells[i].cell_type && self@.cells[i].sel == pre.cells[i].sel
                        && self@.cells[i].value != DETONATED,
                forall|p: Spot|
                    self@.in_bounds(p) && near(p, self@.cur) ==> !(#[trigger] self@.at(p)).mine(),
            ensures
                self@.mine_total() == if pre.mines <= pre.free_total() {
                    pre.mines
                } else {
                    pre.free_total()
                },
            decreases self.mines - laid,
        {
            let ghost round = self@;
            let ghost mut drawn: Spot = (-1, -1);
            let mut placed = false;
            let mut tries: usize = 0;
            while !placed && tries < limit
                invariant
                    round.wf(),
                    round.generated,
                    limit == round.cells.len(),
                    tries <= limit,
                    self@ == round.mine_laid(drawn),
                    placed == round.free(drawn),
                decreases limit - tries,
            {
                proof {
                    assert(round.width > 0 && round.height > 0) by (nonlinear_arith)
                        requires
                            round.cells.len() == round.width * round.height,
                            round.cells.len() > 0,
                    ;
                }
                let x = below(&mut rng, self.size.x);
                let y = below(&mut rng, self.size.y);
                placed = self.place_mine(Pos::new(x, y));
                proof {
                    drawn = (x as int, y as int);
                }
                tries += 1;
            }
            if !placed {
                match self.first_free() {
                    Some(pos) => {
                        self.place_mine(pos);
                        proof {
                            drawn = pos.spot();
                        }
                    },
                    None => {
                        break ;
                    },
                }
            }
            proof {
                lemma_mine_laid(round, drawn);
                assert forall|q: Spot| self@.in_bounds(q) && near(q, self@.cur) implies !(
                #[trigger] self@.at(q)).mine() by {
                    assert(!round.at(q).mine());
                }
            }
            laid += 1;
        }
    }
}

} // verus!
