//! The cascade: which cells open when one is opened, stated over trails
//! of cells, and why the recursive opening reaches exactly those cells.

use crate::cell::{CellType, DETONATED};
use crate::counting::lemma_count_bound;
use crate::facts::lemma_with_cell_tally;
use crate::model::{lemma_apart, lemma_grid, touches, BoardView, Spot};
use vstd::prelude::*;

verus! {

impl BoardView {
    /// Whether a cascade may open the cell at `p`: it is on the board,
    /// not open yet and not flagged.
    pub open spec fn passable(self, p: Spot) -> bool {
        self.in_bounds(p) && !self.at(p).blocked()
    }

    /// Whether a cascade can run along `t`: every cell can be opened,
    /// each but the last has no mine around it, and each is a neighbour
    /// of the next.
    pub open spec fn is_trail(self, t: Seq<Spot>) -> bool {
        &&& t.len() > 0
        &&& forall|i: int| 0 <= i < t.len() ==> self.passable(#[trigger] t[i])
        &&& forall|i: int|
            0 <= i < t.len() - 1 ==> self.at(#[trigger] t[i]).value == 0 && touches(t[i], t[i + 1])
    }

    /// Whether a cascade that starts at `from` opens `to`.
    pub open spec fn reaches(self, from: Spot, to: Spot) -> bool {
        exists|t: Seq<Spot>| #[trigger] self.is_trail(t) && t.first() == from && t.last() == to
    }

    /// The cells that cascades from the given cells open.
    pub open spec fn flood(self, sources: Set<Spot>) -> Set<Spot> {
        Set::new(
            |to: Spot|
                exists|from: Spot| sources.contains(from) && #[trigger] self.reaches(from, to),
        )
    }

    /// The board with the cells of `region` opened, but for those that
    /// are flagged, and the count of opened cells brought up to date.
    pub open spec fn opened(self, region: Set<Spot>) -> BoardView {
        let shown = BoardView {
            cells: Seq::new(
                self.cells.len(),
                |i: int|
                    if region.contains(self.spot(i)) {
                        self.cells[i].shown()
                    } else {
                        self.cells[i]
                    },
            ),
            ..self
        };
        BoardView { revealed: shown.tally(CellType::Visible), ..shown }
    }

    /// Whether a mine lies unflagged at `q`, next to the cursor.
    pub open spec fn struck(self, q: Spot) -> bool {
        self.in_bounds(q) && touches(q, self.cur) && !self.at(q).flagged() && self.at(q).mine()
    }

    /// The unflagged cells without a mine around the cursor.
    pub open spec fn chord_sources(self) -> Set<Spot> {
        Set::new(
            |q: Spot|
                self.in_bounds(q) && touches(q, self.cur) && !self.at(q).flagged() && !self.at(
                    q,
                ).mine(),
        )
    }

    /// The board with every unflagged mine around the cursor set off.
    pub open spec fn detonated(self) -> BoardView {
        BoardView {
            cells: Seq::new(
                self.cells.len(),
                |i: int|
                    if self.struck(self.spot(i)) {
                        self.cells[i].with_value(DETONATED)
                    } else {
                        self.cells[i]
                    },
            ),
            ..self
        }
    }

    /// The board after a chord on the cursor's cell: the unflagged mines
    /// around it are set off, and a cascade runs from each unflagged
    /// safe cell around it.
    pub open spec fn chorded(self) -> BoardView {
        self.detonated().opened(self.flood(self.chord_sources()))
    }

    /// What a reveal does on a board whose mines are laid, and whether
    /// the game goes on. A flagged cell stays as it is. A mine goes off
    /// and ends the game. An open cell is chorded, which ends the game
    /// if an unflagged mine lies around it. Any other cell is opened,
    /// and a cascade runs from it.
    pub open spec fn dug(self) -> (BoardView, bool) {
        if self.is_empty() {
            (self, true)
        } else {
            let cell = self.at(self.cur);
            if cell.flagged() {
                (self, true)
            } else if cell.mine() {
                (self.with_cell(self.cur, cell.with_value(DETONATED)), false)
            } else if cell.visible() {
                (self.chorded(), forall|q: Spot| !#[trigger] self.struck(q))
            } else {
                (self.opened(self.flood(set![self.cur])), true)
            }
        }
    }

    /// Whether `after` and `alive` are what a reveal may give: what
    /// `dug` says of the board with its mines laid, which is the board
    /// itself or, at the first reveal, any board that laying the mines
    /// can give.
    pub open spec fn reveal_gives(self, after: BoardView, alive: bool) -> bool {
        exists|ready: BoardView| #[trigger]
            ready.ready_from(self) && after == ready.dug().0 && alive == ready.dug().1
    }
}

/// Whether `after` differs from `before` at most in that cells which a
/// cascade may open have been opened, and in the values of cells that
/// hold a number other than zero.
pub open spec fn grew(before: BoardView, after: BoardView) -> bool {
    &&& after == (BoardView { cells: after.cells, revealed: after.revealed, ..before })
    &&& after.cells.len() == before.cells.len()
    &&& forall|p: Spot|
        before.in_bounds(p) ==> {
            &&& (#[trigger] after.at(p)).sel == before.at(p).sel
            &&& (after.at(p).cell_type == before.at(p).cell_type || (before.passable(p) && after.at(
                p,
            ).visible()))
            &&& (after.at(p).value == 0 <==> before.at(p).value == 0)
        }
}

/// Whether `p` was opened between `before` and `after`.
pub open spec fn fresh_open(before: BoardView, after: BoardView, p: Spot) -> bool {
    before.passable(p) && !after.passable(p)
}

/// Whether every cell without a mine around it that was opened between
/// `before` and `after`, other than `but`, has only neighbours that a
/// cascade can no longer open.
pub open spec fn sealed_but(before: BoardView, after: BoardView, but: Option<Spot>) -> bool {
    forall|p: Spot, q: Spot|
        fresh_open(before, after, p) && before.at(p).value == 0 && Some(p) != but
            && after.in_bounds(q) && #[trigger] touches(p, q) ==> !after.passable(q)
}

/// Whether every cell that was opened between `before` and `after` is
/// one that a cascade from `from` opens.
pub open spec fn sound(before: BoardView, after: BoardView, from: Spot) -> bool {
    forall|p: Spot| #[trigger] fresh_open(before, after, p) ==> before.reaches(from, p)
}

/// Whether `after` is `before` after a cascade from `from`: only cells
/// that the cascade reaches were opened, the cascade went on from every
/// opened cell without a mine around it, and `from` itself is open or
/// flagged.
pub open spec fn cascaded(before: BoardView, after: BoardView, from: Spot) -> bool {
    &&& grew(before, after)
    &&& sound(before, after, from)
    &&& sealed_but(before, after, None)
    &&& !after.passable(from)
}

/// Whether a cascade from `from` stands as it does while it visits the
/// neighbours of `from`, of which those in `done` have had their turn.
pub open spec fn spreading(
    before: BoardView,
    now: BoardView,
    from: Spot,
    done: Set<Spot>,
) -> bool {
    &&& grew(before, now)
    &&& sound(before, now, from)
    &&& sealed_but(before, now, Some(from))
    &&& before.passable(from)
    &&& before.at(from).value == 0
    &&& !now.passable(from)
    &&& forall|q: Spot| done.contains(q) && now.in_bounds(q) ==> !#[trigger] now.passable(q)
}

/// A cell that can be opened is reached from itself.
pub proof fn lemma_reach_self(b: BoardView, p: Spot)
    requires
        b.passable(p),
    ensures
        b.reaches(p, p),
{
    let t = seq![p];
    assert(b.is_trail(t));
    assert(t.first() == p && t.last() == p);
}

/// A trail on a board on which more is open is a trail on the board
/// as it was.
pub proof fn lemma_trail_back(before: BoardView, after: BoardView, t: Seq<Spot>)
    requires
        grew(before, after),
        after.is_trail(t),
    ensures
        before.is_trail(t),
{
    assert forall|i: int| 0 <= i < t.len() implies before.passable(#[trigger] t[i]) by {
        assert(after.passable(t[i]));
        let c = after.at(t[i]);
    }
    assert forall|i: int| 0 <= i < t.len() - 1 implies before.at(#[trigger] t[i]).value == 0
        && touches(t[i], t[i + 1]) by {
        assert(after.passable(t[i]));
        let c = after.at(t[i]);
    }
}

/// What a cascade reaches from a neighbour of `from`, on a board on
/// which more is open, it reaches from `from` on the board as it was,
/// if `from` could be opened there and had no mine around it.
pub proof fn lemma_reach_on(before: BoardView, mid: BoardView, from: Spot, next: Spot, to: Spot)
    requires
        grew(before, mid),
        before.passable(from),
        before.at(from).value == 0,
        touches(from, next),
        mid.reaches(next, to),
    ensures
        before.reaches(from, to),
{
    let t = choose|t: Seq<Spot>| #[trigger] mid.is_trail(t) && t.first() == next && t.last() == to;
    lemma_trail_back(before, mid, t);
    let longer = seq![from] + t;
    assert forall|i: int| 0 <= i < longer.len() implies before.passable(#[trigger] longer[i]) by {
        if i > 0 {
            assert(longer[i] == t[i - 1]);
        }
    }
    assert forall|i: int| 0 <= i < longer.len() - 1 implies before.at(#[trigger] longer[i]).value
        == 0 && touches(longer[i], longer[i + 1]) by {
        assert(longer[i + 1] == t[i]);
        if i > 0 {
            assert(longer[i] == t[i - 1]);
        }
    }
    assert(before.is_trail(longer));
    assert(longer.first() == from);
    assert(longer.last() == t.last());
}

/// After a cascade no cell of a trail that starts at a cell which is no
/// longer to be opened is itself left to be opened.
pub proof fn lemma_covered(before: BoardView, after: BoardView, t: Seq<Spot>, i: int)
    requires
        grew(before, after),
        sealed_but(before, after, None),
        before.is_trail(t),
        !after.passable(t[0]),
        0 <= i < t.len(),
    ensures
        !after.passable(t[i]),
    decreases i,
{
    if i > 0 {
        lemma_covered(before, after, t, i - 1);
        let p = t[i - 1];
        let q = t[i];
        assert(before.passable(p));
        assert(before.passable(q));
        assert(before.at(p).value == 0 && touches(p, q));
        assert(fresh_open(before, after, p));
    }
}

/// A cascade from `from` opens the cells that `from` reaches, and no
/// others.
pub proof fn lemma_cascade_exact(before: BoardView, after: BoardView, from: Spot)
    requires
        cascaded(before, after, from),
    ensures
        forall|p: Spot| #[trigger] fresh_open(before, after, p) <==> before.reaches(from, p),
{
    assert forall|p: Spot| before.reaches(from, p) implies #[trigger] fresh_open(
        before,
        after,
        p,
    ) by {
        let t = choose|t: Seq<Spot>|
            #[trigger] before.is_trail(t) && t.first() == from && t.last() == p;
        lemma_covered(before, after, t, t.len() - 1);
        assert(before.passable(t[t.len() - 1]));
    }
}

/// Whether every cell that is open in `before` is open in `after`.
pub open spec fn stays_open(before: BoardView, after: BoardView) -> bool {
    forall|p: Spot|
        before.in_bounds(p) && before.at(p).visible() ==> (#[trigger] after.at(p)).visible()
}

/// Whether `after` has its mines where `before` has them, and open what
/// `before` has open.
pub open spec fn kept(before: BoardView, after: BoardView) -> bool {
    forall|p: Spot|
        before.in_bounds(p) ==> (#[trigger] after.at(p)).mine() == before.at(p).mine() && (
        before.at(p).visible() ==> after.at(p).visible())
}

/// Whether the cells of `after` hold the values of `before`.
pub open spec fn same_values(before: BoardView, after: BoardView) -> bool {
    forall|p: Spot| before.in_bounds(p) ==> (#[trigger] after.at(p)).value == before.at(p).value
}

/// Values kept over two steps are kept over both.
pub proof fn lemma_same_values_on(before: BoardView, mid: BoardView, after: BoardView)
    requires
        same_values(before, mid),
        same_values(mid, after),
        before.width == mid.width,
        before.height == mid.height,
    ensures
        same_values(before, after),
{
    assert forall|p: Spot| before.in_bounds(p) implies (#[trigger] after.at(p)).value == before.at(
        p,
    ).value by {
        assert(mid.at(p).value == before.at(p).value);
    }
}

/// The board with one more cell opened and counted.
pub open spec fn open_one(b: BoardView, p: Spot) -> BoardView {
    BoardView { revealed: b.revealed + 1, ..b.with_cell(p, b.at(p).shown()) }
}

/// Opening a cell that can be opened keeps the board in order and the
/// counts in step.
pub proof fn lemma_open_one(b: BoardView, p: Spot)
    requires
        b.wf(),
        b.generated,
        b.counts_match(),
        b.passable(p),
    ensures
        open_one(b, p).wf(),
        open_one(b, p).counts_match(),
        open_one(b, p).revealed <= b.cells.len(),
        grew(b, open_one(b, p)),
        same_values(b, open_one(b, p)),
        forall|q: Spot| #[trigger] fresh_open(b, open_one(b, p), q) <==> q == p,
        !open_one(b, p).passable(p),
{
    let n = open_one(b, p);
    lemma_grid(b.width, b.height);
    lemma_apart(b.width, b.height, p);
    lemma_with_cell_tally(b, p, b.at(p).shown(), CellType::Visible);
    lemma_with_cell_tally(b, p, b.at(p).shown(), CellType::Flag);
    lemma_count_bound(n.cells.len(), n.shows(CellType::Visible));
    assert(n.shows(CellType::Visible) == b.with_cell(p, b.at(p).shown()).shows(CellType::Visible));
    assert(n.shows(CellType::Flag) == b.with_cell(p, b.at(p).shown()).shows(CellType::Flag));
    assert forall|q: Spot| b.in_bounds(q) implies (#[trigger] n.at(q)).value == b.at(q).value
        && n.at(q).sel == b.at(q).sel by {}
    assert forall|q: Spot| n.in_bounds(q) implies ((#[trigger] n.at(q)).sel <==> q == n.cur) by {
        assert(b.at(q).sel <==> q == b.cur);
    }
    assert forall|q: Spot| n.in_bounds(q) && !(#[trigger] n.at(q)).mine() implies n.at(q).value
        == n.adjacent_mines(q) by {
        assert(!b.at(q).mine());
        assert(b.adjacent_mines(q) == n.adjacent_mines(q));
    }
}

/// A cascade from a cell that cannot be opened changes nothing.
pub proof fn lemma_cascade_none(b: BoardView, from: Spot)
    requires
        !b.passable(from),
    ensures
        cascaded(b, b, from),
        same_values(b, b),
{
}

/// A cascade ends at a cell with a mine around it.
pub proof fn lemma_cascade_single(b: BoardView, from: Spot)
    requires
        b.wf(),
        b.generated,
        b.counts_match(),
        b.passable(from),
        b.at(from).value != 0,
    ensures
        cascaded(b, open_one(b, from), from),
{
    lemma_open_one(b, from);
    lemma_reach_self(b, from);
    let n = open_one(b, from);
    assert forall|p: Spot| #[trigger] fresh_open(b, n, p) implies b.reaches(from, p) by {}
    assert forall|p: Spot, q: Spot|
        fresh_open(b, n, p) && b.at(p).value == 0 && Some(p) != None::<Spot> && n.in_bounds(q)
            && #[trigger] touches(p, q) implies !n.passable(q) by {
        assert(p == from);
    }
}

/// How a cascade stands when it has opened its first cell and is about
/// to visit the neighbours.
pub proof fn lemma_spread_start(b: BoardView, from: Spot)
    requires
        b.wf(),
        b.generated,
        b.counts_match(),
        b.passable(from),
        b.at(from).value == 0,
    ensures
        spreading(b, open_one(b, from), from, Set::empty()),
{
    lemma_open_one(b, from);
    lemma_reach_self(b, from);
    let n = open_one(b, from);
    assert forall|p: Spot| #[trigger] fresh_open(b, n, p) implies b.reaches(from, p) by {}
    assert forall|p: Spot, q: Spot|
        fresh_open(b, n, p) && b.at(p).value == 0 && Some(p) != Some(from) && n.in_bounds(q)
            && #[trigger] touches(p, q) implies !n.passable(q) by {
        assert(p == from);
    }
}

/// A cascade that has run from one more neighbour stands as before,
/// with that neighbour done.
pub proof fn lemma_spread_next(
    before: BoardView,
    mid: BoardView,
    after: BoardView,
    from: Spot,
    next: Spot,
    done: Set<Spot>,
)
    requires
        spreading(before, mid, from, done),
        cascaded(mid, after, next),
        touches(from, next),
    ensures
        spreading(before, after, from, done.insert(next)),
{
    assert forall|p: Spot| before.in_bounds(p) implies {
        &&& (#[trigger] after.at(p)).sel == before.at(p).sel
        &&& (after.at(p).cell_type == before.at(p).cell_type || (before.passable(p) && after.at(
            p,
        ).visible()))
        &&& (after.at(p).value == 0 <==> before.at(p).value == 0)
    } by {
        let m = mid.at(p);
    }
    assert(grew(before, after));
    assert forall|p: Spot| !mid.passable(p) && mid.in_bounds(p) implies !after.passable(p) by {
        let c = after.at(p);
        let m = mid.at(p);
    }
    assert forall|p: Spot| #[trigger] fresh_open(before, after, p) implies before.reaches(
        from,
        p,
    ) by {
        if fresh_open(before, mid, p) {
        } else {
            assert(fresh_open(mid, after, p));
            lemma_reach_on(before, mid, from, next, p);
        }
    }
    assert forall|p: Spot, q: Spot|
        fresh_open(before, after, p) && before.at(p).value == 0 && Some(p) != Some(from)
            && after.in_bounds(q) && #[trigger] touches(p, q) implies !after.passable(q) by {
        if fresh_open(before, mid, p) {
            assert(!mid.passable(q));
        } else {
            assert(fresh_open(mid, after, p));
            let m = mid.at(p);
            assert(mid.at(p).value == 0);
        }
    }
    assert forall|q: Spot|
        done.insert(next).contains(q) && after.in_bounds(q) implies !#[trigger] after.passable(
        q,
    ) by {
        if q != next {
            assert(!mid.passable(q));
        }
    }
}

/// A cascade that has run from every neighbour is complete.
pub proof fn lemma_spread_end(before: BoardView, after: BoardView, from: Spot, done: Set<Spot>)
    requires
        spreading(before, after, from, done),
        forall|q: Spot| after.in_bounds(q) && touches(from, q) ==> done.contains(q),
    ensures
        cascaded(before, after, from),
{
    assert forall|p: Spot, q: Spot|
        fresh_open(before, after, p) && before.at(p).value == 0 && Some(p) != None::<Spot>
            && after.in_bounds(q) && #[trigger] touches(p, q) implies !after.passable(q) by {
        if p == from {
            assert(done.contains(q));
        }
    }
}

} // verus!
