//! Axial coordinates on the hexagonal map.
use vstd::prelude::*;

use rand::seq::SliceRandom;

verus! {

/// A hex cell in axial coordinates; the third cube coordinate is `z = -x - y`.
#[derive(Debug, Copy, Clone, PartialEq, Eq, Structural, Hash)]
pub struct Coordinate {
    pub x: isize,
    pub y: isize,
}

/// Coordinates whose sums and differences of a few terms stay within `isize`.
pub open spec fn in_bounds(c: Coordinate) -> bool {
    &&& -(isize::MAX as int) / 8 <= c.x <= (isize::MAX as int) / 8
    &&& -(isize::MAX as int) / 8 <= c.y <= (isize::MAX as int) / 8
}

pub open spec fn abs(i: int) -> int {
    if i < 0 {
        -i
    } else {
        i
    }
}

/// The number of steps between two cells.
pub open spec fn hex_dist(a: Coordinate, b: Coordinate) -> int {
    (abs(a.x - b.x) + abs(a.y - b.y) + abs((a.x + a.y) - (b.x + b.y))) / 2
}

/// `a` comes before `b`: by `x`, then by `y`.
pub open spec fn precedes(a: Coordinate, b: Coordinate) -> bool {
    a.x < b.x || (a.x == b.x && a.y < b.y)
}

/// The cells of `s` are in strictly increasing order, so none is repeated.
pub open spec fn strictly_ordered(s: Seq<Coordinate>) -> bool {
    forall|i: int, j: int| 0 <= i < j < s.len() ==> precedes(#[trigger] s[i], #[trigger] s[j])
}

/// The six cells around `c`, in the order east, north-east, north-west, west,
/// south-west, south-east.
pub open spec fn neighbor_seq(c: Coordinate) -> Seq<Coordinate> {
    seq![
        Coordinate { x: (c.x + 1) as isize, y: c.y },
        Coordinate { x: (c.x + 1) as isize, y: (c.y - 1) as isize },
        Coordinate { x: c.x, y: (c.y - 1) as isize },
        Coordinate { x: (c.x - 1) as isize, y: c.y },
        Coordinate { x: (c.x - 1) as isize, y: (c.y + 1) as isize },
        Coordinate { x: c.x, y: (c.y + 1) as isize },
    ]
}

/// Relies on `rand::seq::SliceRandom::shuffle` with the thread's generator:
/// it reorders the elements and keeps each of them.
#[verifier::external_body]
fn shuffle_coordinates(v: &mut Vec<Coordinate>)
    ensures
        final(v)@.to_multiset() == old(v)@.to_multiset(),
{
    v.shuffle(&mut rand::thread_rng());
}

/// A list of cells handed out one at a time, from the back.
pub struct CoordinateIter {
    neighbors: Vec<Coordinate>,
}

impl CoordinateIter {
    pub closed spec fn remaining(&self) -> Seq<Coordinate> {
        self.neighbors@
    }

    /// The next cell, taken from the back of what remains.
    pub fn next(&mut self) -> (r: Option<Coordinate>)
        ensures
            old(self).remaining().len() == 0 ==> r is None && final(self).remaining() == old(
                self,
            ).remaining(),
            old(self).remaining().len() > 0 ==> r == Some(old(self).remaining().last())
                && final(self).remaining() == old(self).remaining().drop_last(),
    {
        self.neighbors.pop()
    }
}

impl Coordinate {
    /// The third cube coordinate.
    pub fn z(&self) -> (r: isize)
        requires
            in_bounds(*self),
        ensures
            r == -self.x - self.y,
    {
        -self.x - self.y
    }

    pub fn new(x: isize, y: isize) -> (r: Self)
        ensures
            r == (Coordinate { x, y }),
    {
        Coordinate { x, y }
    }

    /// The six adjacent cells, in a fixed order.
    pub fn neighbors(&self) -> (r: Vec<Coordinate>)
        requires
            in_bounds(*self),
        ensures
            r@ == neighbor_seq(*self),
    {
        let mut ns: Vec<Coordinate> = Vec::new();
        ns.push(Coordinate { x: self.x + 1, y: self.y });
        ns.push(Coordinate { x: self.x + 1, y: self.y - 1 });
        ns.push(Coordinate { x: self.x, y: self.y - 1 });
        ns.push(Coordinate { x: self.x - 1, y: self.y });
        ns.push(Coordinate { x: self.x - 1, y: self.y + 1 });
        ns.push(Coordinate { x: self.x, y: self.y + 1 });
        proof {
            assert(ns@ =~= neighbor_seq(*self));
        }
        ns
    }

    /// The six adjacent cells in a random order.
    pub fn neighbors_shuffled(&self) -> (r: Vec<Coordinate>)
        requires
            in_bounds(*self),
        ensures
            r@.to_multiset() == neighbor_seq(*self).to_multiset(),
    {
        let mut result = self.neighbors();
        shuffle_coordinates(&mut result);
        result
    }

    /// The six adjacent cells, handed out from the back of the fixed order.
    pub fn neighbors_iter(&self) -> (r: CoordinateIter)
        requires
            in_bounds(*self),
        ensures
            r.remaining() == neighbor_seq(*self),
    {
        CoordinateIter { neighbors: self.neighbors() }
    }

    /// The six adjacent cells, handed out in a random order.
    pub fn neighbors_shuffled_iter(&self) -> (r: CoordinateIter)
        requires
            in_bounds(*self),
        ensures
            r.remaining().to_multiset() == neighbor_seq(*self).to_multiset(),
    {
        CoordinateIter { neighbors: self.neighbors_shuffled() }
    }

    /// Every cell within `radius` steps, this one included; none for a
    /// negative radius. Ordered by `x`, then by `y`.
    pub fn neighbors_in_radius(&self, radius: isize) -> (r: Vec<Coordinate>)
        requires
            in_bounds(*self),
            radius <= (isize::MAX as int) / 8,
        ensures
            forall|c: Coordinate| r@.contains(c) <==> hex_dist(*self, c) <= radius,
            strictly_ordered(r@),
    {
        let mut items: Vec<Coordinate> = Vec::new();
        if radius < 0 {
            proof {
                assert forall|c: Coordinate| items@.contains(c) <==> hex_dist(*self, c) <= radius by {}
            }
            return items;
        }
        let mut x: isize = -radius;
        while x <= radius
            invariant
                in_bounds(*self),
                0 <= radius <= (isize::MAX as int) / 8,
                -radius <= x <= radius + 1,
                forall|c: Coordinate|
                    items@.contains(c) <==> (hex_dist(*self, c) <= radius && c.x - self.x < x),
                strictly_ordered(items@),
            decreases radius + 1 - x,
        {
            let min = if -radius > -x - radius {
                -radius
            } else {
                -x - radius
            };
            let max = if radius < -x + radius {
                radius
            } else {
                -x + radius
            };
            let mut y: isize = min;
            while y <= max
                invariant
                    in_bounds(*self),
                    0 <= radius <= (isize::MAX as int) / 8,
                    -radius <= x <= radius,
                    min as int == if -radius > -x - radius {
                        -radius
                    } else {
                        -x - radius
                    },
                    max as int == if radius < -x + radius {
                        radius as int
                    } else {
                        -x + radius
                    },
                    min <= y <= max + 1,
                    forall|c: Coordinate|
                        items@.contains(c) <==> (hex_dist(*self, c) <= radius && (c.x - self.x < x
                            || (c.x - self.x == x && c.y - self.y < y))),
                    strictly_ordered(items@),
                decreases max + 1 - y,
            {
                let ghost prev = items@;
                let cell = Coordinate { x: self.x + x, y: self.y + y };
                items.push(cell);
                proof {
                    assert forall|i: int, j: int| 0 <= i < j < items@.len() implies precedes(
                        #[trigger] items@[i],
                        #[trigger] items@[j],
                    ) by {
                        if j == prev.len() {
                            assert(prev.contains(prev[i]));
                        } else {
                            assert(items@[i] == prev[i] && items@[j] == prev[j]);
                        }
                    }
                    assert forall|c: Coordinate|
                        items@.contains(c) <==> (hex_dist(*self, c) <= radius && (c.x - self.x < x
                            || (c.x - self.x == x && c.y - self.y < y + 1))) by {
                        if items@.contains(c) {
                            let m = choose|m: int| 0 <= m < items@.len() && items@[m] == c;
                            if m < prev.len() {
                                assert(prev.contains(c));
                            }
                        }
                        if hex_dist(*self, c) <= radius && (c.x - self.x < x || (c.x - self.x == x
                            && c.y - self.y < y + 1)) {
                            if c.x - self.x == x && c.y - self.y == y {
                                assert(items@[prev.len() as int] == c);
                            } else {
                                assert(prev.contains(c));
                                let m = choose|m: int| 0 <= m < prev.len() && prev[m] == c;
                                assert(items@[m] == c);
                            }
                        }
                    }
                }
                y += 1;
            }
            proof {
                assert forall|c: Coordinate|
                    items@.contains(c) <==> (hex_dist(*self, c) <= radius && c.x - self.x < x + 1) by {
                    if hex_dist(*self, c) <= radius && c.x - self.x == x {
                        assert(c.y - self.y <= max);
                    }
                }
            }
            x += 1;
        }
        items
    }

    /// Every cell within `radius` steps, handed out from the back.
    pub fn neighbors_in_radius_iter(&self, radius: isize) -> (r: CoordinateIter)
        requires
            in_bounds(*self),
            radius <= (isize::MAX as int) / 8,
        ensures
            forall|c: Coordinate| r.remaining().contains(c) <==> hex_dist(*self, c) <= radius,
            strictly_ordered(r.remaining()),
    {
        CoordinateIter { neighbors: self.neighbors_in_radius(radius) }
    }

    /// The number of steps from `self` to `other`.
    pub fn dist(self, other: Self) -> (r: isize)
        requires
            in_bounds(self),
            in_bounds(other),
        ensures
            r == hex_dist(self, other),
    {
        let dx = self.x - other.x;
        let dy = self.y - other.y;
        let dz = self.z() - other.z();
        let ax = if dx < 0 {
            -dx
        } else {
            dx
        };
        let ay = if dy < 0 {
            -dy
        } else {
            dy
        };
        let az = if dz < 0 {
            -dz
        } else {
            dz
        };
        (ax + ay + az) / 2
    }
}

} // verus!
