//! The snake: an ordered body of cells (head at index 0, tail at the last
//! index) plus a current heading. It advances one cell per tick, grows or
//! shifts its tail, and silently rejects a steering request that would
//! reverse it into its own second cell.

use vstd::prelude::*;
use std::collections::VecDeque;
use crate::coord::Coordinate;
use crate::coord::Direction;
use crate::coord::adjacent;
use crate::coord::lemma_unit_injective;

verus! {

/// Some cell of `b` lies at (x, y).
pub open spec fn body_contains(b: Seq<Coordinate>, x: int, y: int) -> bool {
    exists|i: int| 0 <= i < b.len() && (#[trigger] b[i]).x == x && b[i].y == y
}

/// Prepending a head: the new body covers a cell exactly when the head
/// stands there or the old body covered it.
pub proof fn lemma_body_contains_cons(b: Seq<Coordinate>, h: Coordinate, x: int, y: int)
    ensures
        body_contains(seq![h] + b, x, y) <==> ((h.x == x && h.y == y) || body_contains(b, x, y)),
{
    let nb = seq![h] + b;
    if body_contains(nb, x, y) {
        let i = choose|i: int| 0 <= i < nb.len() && (#[trigger] nb[i]).x == x && nb[i].y == y;
        if i > 0 {
            assert(b[i - 1] == nb[i]);
        }
    }
    if h.x == x && h.y == y {
        assert(nb[0] == h);
    }
    if body_contains(b, x, y) {
        let i = choose|i: int| 0 <= i < b.len() && (#[trigger] b[i]).x == x && b[i].y == y;
        assert(nb[i + 1] == b[i]);
    }
}

/// Removing the tail: the shortened body covers a cell exactly when the
/// full body covered it by some cell other than the last.
pub proof fn lemma_body_contains_drop_last(b: Seq<Coordinate>, x: int, y: int)
    requires
        b.len() >= 1,
    ensures
        body_contains(b, x, y) <==> (body_contains(b.drop_last(), x, y) || (b.last().x == x
            && b.last().y == y)),
{
    let db = b.drop_last();
    if body_contains(b, x, y) {
        let i = choose|i: int| 0 <= i < b.len() && (#[trigger] b[i]).x == x && b[i].y == y;
        if i < b.len() - 1 {
            assert(db[i] == b[i]);
        }
    }
    if body_contains(db, x, y) {
        let i = choose|i: int| 0 <= i < db.len() && (#[trigger] db[i]).x == x && db[i].y == y;
        assert(b[i] == db[i]);
    }
    if b.last().x == x && b.last().y == y {
        assert(b[b.len() - 1] == b.last());
    }
}

pub struct Snake {
    pub body: VecDeque<Coordinate>,
    pub direction: Direction,
}

impl Snake {
    /// Structural invariant of every reachable snake: the body is never
    /// empty, consecutive cells are orthogonally adjacent (no gaps), and
    /// no coordinate occurs twice (the body never self-intersects).
    pub open spec fn wf(self) -> bool {
        &&& self.body@.len() >= 1
        &&& forall|i: int|
            0 <= i < self.body@.len() - 1 ==> adjacent(#[trigger] self.body@[i], self.body@[i + 1])
        &&& forall|i: int, j: int|
            0 <= i < j < self.body@.len() ==> #[trigger] self.body@[i] != #[trigger] self.body@[j]
    }

    /// x-component of the cell the head would move to this tick.
    pub open spec fn next_x(self) -> int {
        self.body@[0].x + self.direction.spec_unit().0
    }

    /// y-component of the cell the head would move to this tick.
    pub open spec fn next_y(self) -> int {
        self.body@[0].y + self.direction.spec_unit().1
    }

    /// The proposed head cell already lies on the body (a fatal move).
    pub open spec fn hits_body(self) -> bool {
        body_contains(self.body@, self.next_x(), self.next_y())
    }

    /// Build the initial snake: `len` cells laid out horizontally with the
    /// head at `head` and the tail extending to the left, heading Right.
    pub fn new(head: Coordinate, len: usize) -> (s: Snake)
        requires
            1 <= len,
            len <= isize::MAX,
            isize::MIN <= head.x - len + 1,
        ensures
            s.wf(),
            s.direction == Direction::Right,
            s.body@.len() == len,
            forall|i: int|
                0 <= i < len ==> s.body@[i].x == head.x - i && s.body@[i].y == head.y,
    {
        let mut body: VecDeque<Coordinate> = VecDeque::new();
        let mut i: usize = 0;
        while i < len
            invariant
                i <= len,
                len <= isize::MAX,
                isize::MIN <= head.x - len + 1,
                body@.len() == i,
                forall|j: int|
                    0 <= j < i ==> body@[j].x == head.x - (len - i) - j && body@[j].y == head.y,
            decreases len - i,
        {
            let offset: isize = (len - 1 - i) as isize;
            body.push_front(Coordinate { x: head.x - offset, y: head.y });
            i = i + 1;
        }
        Snake { body, direction: Direction::Right }
    }

    /// The cell the head would move to: head plus the heading's unit vector.
    pub fn next_head(&self) -> (r: Coordinate)
        requires
            self.body@.len() >= 1,
            isize::MIN <= self.next_x() <= isize::MAX,
            isize::MIN <= self.next_y() <= isize::MAX,
        ensures
            r.x == self.next_x(),
            r.y == self.next_y(),
    {
        let head = self.body[0];
        head.add(self.direction.to_relative_coordinate())
    }

    /// Move the snake one step forward along its heading: the proposed head
    /// is prepended and, unless `growed`, the tail cell is removed and
    /// returned. The caller must already have validated that the move is
    /// legal: this operation performs no validation itself.
    pub fn update(&mut self, growed: bool) -> (r: (Coordinate, Option<Coordinate>))
        requires
            old(self).wf(),
            isize::MIN <= old(self).next_x() <= isize::MAX,
            isize::MIN <= old(self).next_y() <= isize::MAX,
            !old(self).hits_body(),
        ensures
            final(self).wf(),
            final(self).direction == old(self).direction,
            r.0.x == old(self).next_x(),
            r.0.y == old(self).next_y(),
            growed ==> final(self).body@ == seq![r.0] + old(self).body@
                && r.1 == None::<Coordinate>,
            !growed ==> final(self).body@ == seq![r.0] + old(self).body@.drop_last()
                && r.1 == Some(old(self).body@.last()),
    {
        let next_head = self.next_head();
        self.body.push_front(next_head);
        let mut old_tail: Option<Coordinate> = None;
        if !growed {
            old_tail = self.body.pop_back();
            proof {
                assert(self.body@ =~= seq![next_head] + old(self).body@.drop_last());
            }
        }
        proof {
            let b = self.body@;
            let oldb = old(self).body@;
            let u = old(self).direction.spec_unit();
            assert(u == (0int, -1int) || u == (0int, 1int) || u == (-1int, 0int)
                || u == (1int, 0int));
            assert forall|i: int| 0 <= i < b.len() - 1 implies adjacent(
                #[trigger] b[i],
                b[i + 1],
            ) by {
                if i == 0 {
                    assert(b[1] == oldb[0]);
                    assert(b[0].x == oldb[0].x + u.0 && b[0].y == oldb[0].y + u.1);
                } else {
                    assert(b[i] == oldb[i - 1]);
                    assert(b[i + 1] == oldb[i]);
                    assert(adjacent(oldb[i - 1], oldb[i]));
                }
            }
            assert forall|i: int, j: int| 0 <= i < j < b.len() implies #[trigger] b[i]
                != #[trigger] b[j] by {
                assert(b[j] == oldb[j - 1]);
                if i > 0 {
                    assert(b[i] == oldb[i - 1]);
                }
            }
        }
        (next_head, old_tail)
    }

    /// What a steering request leaves the heading at: the request is ignored
    /// exactly when its unit vector points from the head to the second body
    /// cell (the move that would reverse the snake into itself).
    pub open spec fn redirect_result(self, d: Direction) -> Direction {
        if self.body@[1].x - self.body@[0].x == d.spec_unit().0 && self.body@[1].y
            - self.body@[0].y == d.spec_unit().1 {
            self.direction
        } else {
            d
        }
    }

    /// Try to steer the snake; a request that would reverse it into its own
    /// second cell is silently ignored.
    pub fn try_redirect(&mut self, direction: Direction)
        requires
            old(self).wf(),
            old(self).body@.len() >= 2,
        ensures
            final(self).body == old(self).body,
            final(self).wf(),
            final(self).direction == old(self).redirect_result(direction),
    {
        let second = self.body[1];
        let head = self.body[0];
        proof {
            assert(adjacent(head, second));
        }
        let rel = second.sub(head);
        if rel != direction.to_relative_coordinate() {
            self.direction = direction;
        }
    }
}

/// Anti-reversal law: whenever the second body cell lies directly behind
/// the head along the current heading (as it does after any tick that moved
/// the snake along that heading), a steering request for the exact reverse
/// of the current heading leaves the heading unchanged, and a request for
/// any of the other three directions takes effect.
pub proof fn lemma_anti_reversal(s: Snake, d: Direction)
    requires
        s.body@.len() >= 2,
        s.body@[1].x == s.body@[0].x - s.direction.spec_unit().0,
        s.body@[1].y == s.body@[0].y - s.direction.spec_unit().1,
    ensures
        d == s.direction.spec_reverse() ==> s.redirect_result(d) == s.direction,
        d != s.direction.spec_reverse() ==> s.redirect_result(d) == d,
{
    lemma_unit_injective(d, s.direction.spec_reverse());
    lemma_unit_injective(s.direction, d);
}

} // verus!
