//! Antinode geometry: stepping repeatedly along the offset between two
//! antennas and collecting the positions that stay on the map.

use vstd::prelude::*;

verus! {

/// An offset between two locations.
#[derive(Clone, Copy, Debug, PartialEq, Eq, Structural)]
pub struct Vector {
    pub x: i64,
    pub y: i64,
}

/// A position on the map.
#[derive(Clone, Copy, Debug, PartialEq, Eq, Structural)]
pub struct Location {
    pub x: i64,
    pub y: i64,
}

impl Location {
    /// The location one `vector` step away.
    pub fn add(&self, vector: &Vector) -> (r: Location)
        requires
            i64::MIN <= self.x + vector.x <= i64::MAX,
            i64::MIN <= self.y + vector.y <= i64::MAX,
        ensures
            r.x == self.x + vector.x,
            r.y == self.y + vector.y,
    {
        Location { x: self.x + vector.x, y: self.y + vector.y }
    }

    /// The offset that carries `location` to `self`.
    pub fn sub(&self, location: &Location) -> (r: Vector)
        requires
            i64::MIN <= self.x - location.x <= i64::MAX,
            i64::MIN <= self.y - location.y <= i64::MAX,
        ensures
            r.x == self.x - location.x,
            r.y == self.y - location.y,
    {
        Vector { x: self.x - location.x, y: self.y - location.y }
    }
}

/// The rectangular map the antennas stand on, as its dimensions.
#[derive(Clone, Copy, Debug, PartialEq, Eq, Structural)]
pub struct AntennaMap {
    pub width: i64,
    pub height: i64,
}

impl AntennaMap {
    /// The map's dimensions are sane: non-negative, and small enough that
    /// one offset step from an on-map position cannot overflow.
    pub open spec fn wf(self) -> bool {
        0 <= self.width <= i64::MAX / 2 && 0 <= self.height <= i64::MAX / 2
    }

    /// The location lies on the map.
    pub open spec fn valid_antinode(self, l: Location) -> bool {
        0 <= l.x < self.width && 0 <= l.y < self.height
    }

    /// Whether a location lies on the map.
    pub fn is_valid_antinode(&self, location: &Location) -> (r: bool)
        ensures
            r == self.valid_antinode(*location),
    {
        location.x >= 0 && location.x < self.width && location.y >= 0 && location.y < self.height
    }

    /// All antinodes of the ordered antenna pair `(antenna_a, antenna_b)`:
    /// the positions one, two, three, ... steps beyond `antenna_a` along the
    /// offset from `antenna_b` to `antenna_a`, up to the map's edge.  The
    /// result holds exactly the on-map prefix of that ray: one more step
    /// from its last entry would leave the map.
    #[verifier::loop_isolation(false)]
    pub fn antinodes(&self, antenna_a: &Location, antenna_b: &Location) -> (r: Vec<Location>)
        requires
            self.wf(),
            self.valid_antinode(*antenna_a),
            self.valid_antinode(*antenna_b),
            antenna_a != antenna_b,
        ensures
            forall|k: int|
                0 <= k < r@.len() ==> (#[trigger] r@[k]).x == antenna_a.x + (k + 1) * (antenna_a.x
                    - antenna_b.x) && r@[k].y == antenna_a.y + (k + 1) * (antenna_a.y
                    - antenna_b.y) && self.valid_antinode(r@[k]),
            !(0 <= antenna_a.x + (r@.len() + 1) * (antenna_a.x - antenna_b.x) < self.width && 0
                <= antenna_a.y + (r@.len() + 1) * (antenna_a.y - antenna_b.y) < self.height),
    {
        let vector = antenna_a.sub(antenna_b);
        let mut result: Vec<Location> = Vec::new();
        let mut cur = Location { x: antenna_a.x, y: antenna_a.y };
        let ghost ax = antenna_a.x as int;
        let ghost ay = antenna_a.y as int;
        let ghost vx = vector.x as int;
        let ghost vy = vector.y as int;
        let mut nxt = cur.add(&vector);
        let mut more = self.is_valid_antinode(&nxt);
        proof {
            assert(1 * vx == vx && 1 * vy == vy) by (nonlinear_arith);
            assert(0 * vx == 0 && 0 * vy == 0) by (nonlinear_arith);
        }
        while more
            invariant
                vector.x == antenna_a.x - antenna_b.x,
                vector.y == antenna_a.y - antenna_b.y,
                cur.x == ax + result@.len() * vx,
                cur.y == ay + result@.len() * vy,
                self.valid_antinode(cur) || result@.len() == 0,
                nxt.x == ax + (result@.len() + 1) * vx,
                nxt.y == ay + (result@.len() + 1) * vy,
                more == self.valid_antinode(nxt),
                forall|k: int|
                    0 <= k < result@.len() ==> (#[trigger] result@[k]).x == ax + (k + 1) * vx
                        && result@[k].y == ay + (k + 1) * vy && self.valid_antinode(result@[k]),
            decreases (if vector.x > 0 {
                self.width - cur.x
            } else if vector.x < 0 {
                cur.x - i64::MIN
            } else if vector.y > 0 {
                self.height - cur.y
            } else {
                cur.y - i64::MIN
            }),
        {
            result.push(nxt);
            cur = nxt;
            proof {
                let k = result@.len() as int;
                assert((k + 1) * vx == k * vx + vx && (k + 1) * vy == k * vy + vy)
                    by (nonlinear_arith);
                assert(k * vx == (k - 1) * vx + vx && k * vy == (k - 1) * vy + vy)
                    by (nonlinear_arith);
            }
            nxt = cur.add(&vector);
            more = self.is_valid_antinode(&nxt);
        }
        result
    }
}

/// All unordered pairs of a slice, yielded as ordered index pairs
/// `(index, subindex)` with `index < subindex`, in lexicographic order.
pub struct Pairs<'a, T> {
    pub elements: &'a [T],
    pub index: usize,
    pub subindex: usize,
}

impl<'a, T> Pairs<'a, T> {
    /// The cursor is on a pair still to be yielded, or past the end.
    pub open spec fn wf(self) -> bool {
        self.index < self.subindex && (self.subindex < self.elements@.len() || self.index + 1
            >= self.elements@.len())
    }

    /// A fresh pair cursor over `elements`.
    pub fn new(elements: &'a [T]) -> (r: Self)
        ensures
            r.elements == elements,
            r.index == 0,
            r.subindex == 1,
            r.wf(),
    {
        Self { elements, index: 0, subindex: 1 }
    }

    /// The next pair, or `None` once every pair has been yielded.
    pub fn next(&mut self) -> (r: Option<(&'a T, &'a T)>)
        requires
            old(self).wf(),
        ensures
            final(self).wf(),
            final(self).elements == old(self).elements,
            old(self).index + 1 >= old(self).elements@.len() ==> r is None && *final(self) == *old(
                self,
            ),
            old(self).index + 1 < old(self).elements@.len() ==> (r matches Some(p) && *p.0 == old(
                self,
            ).elements@[old(self).index as int] && *p.1 == old(self).elements@[old(
                self,
            ).subindex as int]),
    {
        if self.index + 1 >= self.elements.len() {
            return None;
        }
        let pair = (&self.elements[self.index], &self.elements[self.subindex]);
        self.subindex += 1;
        if self.subindex >= self.elements.len() {
            self.index += 1;
            self.subindex = self.index + 1;
        }
        Some(pair)
    }
}

} // verus!
