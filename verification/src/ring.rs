//! Lists of the positions around a cell.

use crate::board::{Board, Pos};
use crate::model::{touches, BoardView, Spot};
use vstd::prelude::*;

verus! {

/// Whether `q` occurs in the list.
pub open spec fn holds(ns: Seq<Pos>, q: Spot) -> bool {
    exists|k: int| 0 <= k < ns.len() && (#[trigger] ns[k]).spot() == q
}

/// A place at which `q` occurs in the list, if it occurs at all.
pub open spec fn place_of(ns: Seq<Pos>, q: Spot) -> int {
    choose|k: int| 0 <= k < ns.len() && (#[trigger] ns[k]).spot() == q
}

/// Whether the list names each position of `seen` that is on the board,
/// once, and nothing else.
pub open spec fn lists(b: BoardView, ns: Seq<Pos>, seen: Set<Spot>) -> bool {
    &&& forall|k: int|
        0 <= k < ns.len() ==> b.in_bounds((#[trigger] ns[k]).spot()) && seen.contains(
            ns[k].spot(),
        )
    &&& forall|q: Spot| seen.contains(q) && b.in_bounds(q) ==> #[trigger] holds(ns, q)
    &&& forall|j: int, k: int| 0 <= j < k < ns.len() ==> #[trigger] ns[j] != #[trigger] ns[k]
}

/// Whether the list names each neighbour of `p` on the board, once, and
/// nothing else.
pub open spec fn is_ring(b: BoardView, p: Spot, ns: Seq<Pos>) -> bool {
    lists(b, ns, Set::new(|q: Spot| touches(q, p)))
}

/// A list stays complete when a position not seen before is added to
/// it, if it is on the board, and is counted as seen.
pub proof fn lemma_lists_step(
    b: BoardView,
    ns: Seq<Pos>,
    seen: Set<Spot>,
    added: Pos,
    after: Seq<Pos>,
)
    requires
        lists(b, ns, seen),
        !seen.contains(added.spot()),
        after == if b.in_bounds(added.spot()) {
            ns.push(added)
        } else {
            ns
        },
    ensures
        lists(b, after, seen.insert(added.spot())),
{
    let grown = seen.insert(added.spot());
    assert forall|q: Spot| grown.contains(q) && b.in_bounds(q) implies #[trigger] holds(
        after,
        q,
    ) by {
        if q == added.spot() {
            assert(after[ns.len() as int].spot() == q);
        } else {
            assert(holds(ns, q));
            assert(after[place_of(ns, q)].spot() == q);
        }
    }
    assert forall|k: int| 0 <= k < after.len() implies b.in_bounds((#[trigger] after[k]).spot())
        && grown.contains(after[k].spot()) by {
        if k < ns.len() {
            assert(after[k] == ns[k]);
        }
    }
    assert forall|j: int, k: int| 0 <= j < k < after.len() implies #[trigger] after[j]
        != #[trigger] after[k] by {
        if k < ns.len() {
            assert(after[j] == ns[j] && after[k] == ns[k]);
        } else {
            assert(after[j] == ns[j]);
            assert(seen.contains(ns[j].spot()));
        }
    }
}

/// The eight positions one step away are the neighbours.
pub proof fn lemma_eight(p: Spot)
    ensures
        Set::<Spot>::empty().insert((p.0 - 1, p.1 - 1)).insert((p.0, p.1 - 1)).insert(
            (p.0 + 1, p.1 - 1),
        ).insert((p.0 - 1, p.1)).insert((p.0 + 1, p.1)).insert((p.0 - 1, p.1 + 1)).insert(
            (p.0, p.1 + 1),
        ).insert((p.0 + 1, p.1 + 1)) == Set::new(|q: Spot| touches(q, p)),
{
    let s = Set::<Spot>::empty().insert((p.0 - 1, p.1 - 1)).insert((p.0, p.1 - 1)).insert(
        (p.0 + 1, p.1 - 1),
    ).insert((p.0 - 1, p.1)).insert((p.0 + 1, p.1)).insert((p.0 - 1, p.1 + 1)).insert(
        (p.0, p.1 + 1),
    ).insert((p.0 + 1, p.1 + 1));
    assert(s =~= Set::new(|q: Spot| touches(q, p)));
}

impl Board {
    /// Appends the position `dx` columns and `dy` rows from `pos` to the
    /// list if it is on the board.
    fn add_neighbor(&self, cells: &mut Vec<Pos>, pos: Pos, dx: i8, dy: i8)
        requires
            -1 <= dx <= 1,
            -1 <= dy <= 1,
        ensures
            final(cells)@ == (if self@.in_bounds((pos.x + dx, pos.y + dy)) {
                old(cells)@.push(Pos { x: (pos.x + dx) as usize, y: (pos.y + dy) as usize })
            } else {
                old(cells)@
            }),
    {
        match (Self::step(pos.x, dx, self.size.x), Self::step(pos.y, dy, self.size.y)) {
            (Some(x), Some(y)) => {
                cells.push(Pos::new(x, y));
            },
            _ => {},
        }
    }

    /// The neighbours of `pos` that are on the board: up to eight, each
    /// once.
    pub fn get_neighbors(&self, pos: Pos) -> (cells: Vec<Pos>)
        ensures
            is_ring(self@, pos.spot(), cells@),
    {
        let mut cells: Vec<Pos> = Vec::new();
        let ghost p = pos.spot();
        let ghost mut seen = Set::<Spot>::empty();
        let ghost mut before = cells@;
        assert(lists(self@, cells@, seen));
        self.add_neighbor(&mut cells, pos, -1, -1);
        proof {
            self.lemma_candidate(pos, -1, -1, before, seen, cells@);
            seen = seen.insert((p.0 - 1, p.1 - 1));
            before = cells@;
        }
        self.add_neighbor(&mut cells, pos, 0, -1);
        proof {
            self.lemma_candidate(pos, 0, -1, before, seen, cells@);
            seen = seen.insert((p.0, p.1 - 1));
            before = cells@;
        }
        self.add_neighbor(&mut cells, pos, 1, -1);
        proof {
            self.lemma_candidate(pos, 1, -1, before, seen, cells@);
            seen = seen.insert((p.0 + 1, p.1 - 1));
            before = cells@;
        }
        self.add_neighbor(&mut cells, pos, -1, 0);
        proof {
            self.lemma_candidate(pos, -1, 0, before, seen, cells@);
            seen = seen.insert((p.0 - 1, p.1));
            before = cells@;
        }
        self.add_neighbor(&mut cells, pos, 1, 0);
        proof {
            self.lemma_candidate(pos, 1, 0, before, seen, cells@);
            seen = seen.insert((p.0 + 1, p.1));
            before = cells@;
        }
        self.add_neighbor(&mut cells, pos, -1, 1);
        proof {
            self.lemma_candidate(pos, -1, 1, before, seen, cells@);
            seen = seen.insert((p.0 - 1, p.1 + 1));
            before = cells@;
        }
        self.add_neighbor(&mut cells, pos, 0, 1);
        proof {
            self.lemma_candidate(pos, 0, 1, before, seen, cells@);
            seen = seen.insert((p.0, p.1 + 1));
            before = cells@;
        }
        self.add_neighbor(&mut cells, pos, 1, 1);
        proof {
            self.lemma_candidate(pos, 1, 1, before, seen, cells@);
            seen = seen.insert((p.0 + 1, p.1 + 1));
            lemma_eight(p);
        }
        cells
    }

    /// What one call of `add_neighbor` does to a list that was complete
    /// for the positions seen so far.
    proof fn lemma_candidate(
        &self,
        pos: Pos,
        dx: int,
        dy: int,
        before: Seq<Pos>,
        seen: Set<Spot>,
        after: Seq<Pos>,
    )
        requires
            lists(self@, before, seen),
            !seen.contains((pos.x + dx, pos.y + dy)),
            after == (if self@.in_bounds((pos.x + dx, pos.y + dy)) {
                before.push(Pos { x: (pos.x + dx) as usize, y: (pos.y + dy) as usize })
            } else {
                before
            }),
        ensures
            lists(self@, after, seen.insert((pos.x + dx, pos.y + dy))),
    {
        let q = (pos.x + dx, pos.y + dy);
        if self@.in_bounds(q) {
            let added = Pos { x: q.0 as usize, y: q.1 as usize };
            assert(added.spot() == q);
            lemma_lists_step(self@, before, seen, added, after);
        } else {
            assert forall|k: int| 0 <= k < after.len() implies self@.in_bounds(
                (#[trigger] after[k]).spot(),
            ) && seen.insert(q).contains(after[k].spot()) by {}
            assert forall|r: Spot| seen.insert(q).contains(r) && self@.in_bounds(
                r,
            ) implies #[trigger] holds(after, r) by {
                assert(seen.contains(r));
            }
        }
    }
}

} // verus!
