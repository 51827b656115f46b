//! The bounding envelope: a read-only reduction of a path to the minimal
//! axis-aligned rectangle containing all of its coordinates.

use vstd::prelude::*;

use crate::coord::Coord;
use crate::line_string::LineString;

verus! {

/// An axis-aligned rectangle, given by its minimum and maximum corners.
#[derive(Clone, Copy, PartialEq, Eq, Structural, Debug)]
pub struct Envelope {
    pub min: Coord,
    pub max: Coord,
}

/// Whether the rectangle contains the coordinate.
pub open spec fn envelope_contains(e: Envelope, c: Coord) -> bool {
    e.min.x <= c.x <= e.max.x && e.min.y <= c.y <= e.max.y
}

/// The rectangle spanning the scalar type's whole representable extent.
/// It contains every coordinate, so pruning against it never wrongly
/// excludes an empty shape.
pub open spec fn full_extent() -> Envelope {
    Envelope {
        min: Coord { x: i64::MIN, y: i64::MIN },
        max: Coord { x: i64::MAX, y: i64::MAX },
    }
}

impl Envelope {
    /// Decide whether the rectangle contains the coordinate.
    pub fn contains(&self, c: Coord) -> (b: bool)
        ensures
            b == envelope_contains(*self, c),
    {
        self.min.x <= c.x && c.x <= self.max.x && self.min.y <= c.y && c.y <= self.max.y
    }
}

impl LineString {
    /// Reduce the path to the minimal axis-aligned rectangle containing all
    /// of its coordinates: the minimum corner holds the least x and least y,
    /// the maximum corner the greatest x and greatest y. An empty path has
    /// no coordinate to bound and yields the full representable extent.
    pub fn envelope(&self) -> (e: Envelope)
        ensures
            self@.len() == 0 ==> e == full_extent(),
            self@.len() > 0 ==> forall|k: int|
                0 <= k < self@.len() ==> envelope_contains(e, self@[k]),
            self@.len() > 0 ==> exists|k: int| 0 <= k < self@.len() && e.min.x == self@[k].x,
            self@.len() > 0 ==> exists|k: int| 0 <= k < self@.len() && e.min.y == self@[k].y,
            self@.len() > 0 ==> exists|k: int| 0 <= k < self@.len() && e.max.x == self@[k].x,
            self@.len() > 0 ==> exists|k: int| 0 <= k < self@.len() && e.max.y == self@[k].y,
    {
        if self.0.len() == 0 {
            Envelope {
                min: Coord { x: i64::MIN, y: i64::MIN },
                max: Coord { x: i64::MAX, y: i64::MAX },
            }
        } else {
            let first = self.0[0];
            let mut min_x: i64 = first.x;
            let mut min_y: i64 = first.y;
            let mut max_x: i64 = first.x;
            let mut max_y: i64 = first.y;
            let mut i: usize = 1;
            while i < self.0.len()
                invariant
                    1 <= i <= self@.len(),
                    forall|k: int|
                        0 <= k < i ==> min_x <= (#[trigger] self@[k]).x <= max_x && min_y
                            <= self@[k].y <= max_y,
                    exists|k: int| 0 <= k < i && min_x == self@[k].x,
                    exists|k: int| 0 <= k < i && min_y == self@[k].y,
                    exists|k: int| 0 <= k < i && max_x == self@[k].x,
                    exists|k: int| 0 <= k < i && max_y == self@[k].y,
                decreases self@.len() - i,
            {
                let c = self.0[i];
                if c.x < min_x {
                    min_x = c.x;
                }
                if c.y < min_y {
                    min_y = c.y;
                }
                if c.x > max_x {
                    max_x = c.x;
                }
                if c.y > max_y {
                    max_y = c.y;
                }
                i = i + 1;
            }
            Envelope { min: Coord { x: min_x, y: min_y }, max: Coord { x: max_x, y: max_y } }
        }
    }
}

} // verus!
