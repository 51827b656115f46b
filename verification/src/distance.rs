//! The distance evaluator: the exact squared Euclidean distance from a
//! query coordinate to the nearest point on the path, taken over all of its
//! segments. With integer scalars the exact value is a rational number, so
//! the result is carried as a numerator/denominator pair; a coincidence
//! with the path is reported as an exact zero.

use vstd::prelude::*;

use crate::coord::Coord;
use crate::line_string::LineString;

verus! {

/// Largest coordinate magnitude the distance evaluator accepts. It keeps
/// every intermediate product, and every cross-multiplied comparison of two
/// results, inside the 128-bit range used by the computation.
pub const COORD_LIMIT: i64 = 524288;

/// Upper bound on the numerator of a squared distance over coordinates
/// within `COORD_LIMIT`: the square of twice the largest squared span.
pub const NUM_LIMIT: i128 = 4835703278458516698824704;

/// Upper bound on the denominator of a squared distance over coordinates
/// within `COORD_LIMIT`: twice the largest squared span.
pub const DEN_LIMIT: i128 = 2199023255552;

/// Whether a coordinate lies within the evaluator's accepted range.
pub open spec fn in_bounds(c: Coord) -> bool {
    -COORD_LIMIT <= c.x <= COORD_LIMIT && -COORD_LIMIT <= c.y <= COORD_LIMIT
}

/// Whether every coordinate of a sequence lies within the accepted range.
pub open spec fn in_bounds_seq(s: Seq<Coord>) -> bool {
    forall|k: int| 0 <= k < s.len() ==> in_bounds(#[trigger] s[k])
}

/// The squared Euclidean distance between two coordinates.
pub open spec fn d2(p: Coord, q: Coord) -> int {
    (p.x - q.x) * (p.x - q.x) + (p.y - q.y) * (p.y - q.y)
}

/// The dot product of (b - a) with (p - a): the unclamped projection
/// parameter of p onto the segment (a, b), scaled by `d2(a, b)`.
pub open spec fn seg_dot(p: Coord, a: Coord, b: Coord) -> int {
    (b.x - a.x) * (p.x - a.x) + (b.y - a.y) * (p.y - a.y)
}

/// The cross product of (b - a) with (p - a): its square equals the squared
/// perpendicular distance from p to the line through (a, b), scaled by
/// `d2(a, b)`.
pub open spec fn seg_cross(p: Coord, a: Coord, b: Coord) -> int {
    (b.x - a.x) * (p.y - a.y) - (b.y - a.y) * (p.x - a.x)
}

/// Numerator of the squared distance from p to the segment (a, b): the
/// projection parameter is clamped to the segment, so the nearest point is
/// an endpoint when the projection falls outside, and the perpendicular
/// foot otherwise.
pub open spec fn seg_num(p: Coord, a: Coord, b: Coord) -> int {
    if seg_dot(p, a, b) <= 0 {
        d2(p, a)
    } else if seg_dot(p, a, b) >= d2(a, b) {
        d2(p, b)
    } else {
        seg_cross(p, a, b) * seg_cross(p, a, b)
    }
}

/// Denominator of the squared distance from p to the segment (a, b): one in
/// the endpoint cases, the squared segment length in the interior case.
pub open spec fn seg_den(p: Coord, a: Coord, b: Coord) -> int {
    if seg_dot(p, a, b) <= 0 {
        1
    } else if seg_dot(p, a, b) >= d2(a, b) {
        1
    } else {
        d2(a, b)
    }
}

/// Ordering of two rationals n1/d1 and n2/d2 with positive denominators,
/// by cross multiplication.
pub open spec fn rat_le(n1: int, d1: int, n2: int, d2: int) -> bool {
    n1 * d2 <= n2 * d1
}

/// Equality of two rationals n1/d1 and n2/d2 with positive denominators,
/// by cross multiplication.
pub open spec fn rat_eq(n1: int, d1: int, n2: int, d2: int) -> bool {
    n1 * d2 == n2 * d1
}

/// Whether p lies exactly on some segment of the coordinate sequence.
pub open spec fn on_path(p: Coord, s: Seq<Coord>) -> bool {
    exists|k: int| 0 <= k < s.len() - 1 && seg_num(p, s[k], #[trigger] s[k + 1]) == 0
}

/// An exact squared distance, carried as the rational num / den.
#[derive(Clone, Copy, PartialEq, Eq, Structural, Debug)]
pub struct SquaredDistance {
    pub num: i128,
    pub den: i128,
}

impl SquaredDistance {
    /// Well-formedness: the value is nonnegative with a positive
    /// denominator, and both parts are small enough that comparing two
    /// well-formed values by cross multiplication cannot overflow.
    pub open spec fn wf(self) -> bool {
        0 <= self.num <= NUM_LIMIT && 1 <= self.den <= DEN_LIMIT
    }

    /// An exact integer squared distance.
    pub fn from_int(v: i64) -> (r: SquaredDistance)
        requires
            0 <= v,
        ensures
            r.num == v && r.den == 1,
            r.wf(),
    {
        SquaredDistance { num: v as i128, den: 1 }
    }

    /// Whether the squared distance is exactly zero.
    pub fn is_zero(&self) -> (b: bool)
        ensures
            b == (self.num == 0),
    {
        self.num == 0
    }

    /// Whether this squared distance is at most the other, as rationals.
    pub fn le(&self, other: &SquaredDistance) -> (b: bool)
        requires
            self.wf(),
            other.wf(),
        ensures
            b == rat_le(self.num as int, self.den as int, other.num as int, other.den as int),
    {
        proof {
            lemma_mul_bounds(self.num as int, other.den as int);
            lemma_mul_bounds(other.num as int, self.den as int);
        }
        self.num * other.den <= other.num * self.den
    }

    /// Whether this squared distance equals the given integer, as
    /// rationals.
    pub fn equals_int(&self, v: i64) -> (b: bool)
        requires
            self.wf(),
            0 <= v,
        ensures
            b == rat_eq(self.num as int, self.den as int, v as int, 1),
    {
        proof {
            lemma_mul_bounds(v as int, self.den as int);
        }
        self.num == (v as i128) * self.den
    }
}

/// Bound on the product of a well-formed numerator and denominator: it
/// stays far inside the 128-bit range.
proof fn lemma_mul_bounds(n: int, d: int)
    requires
        -NUM_LIMIT <= n <= NUM_LIMIT,
        -DEN_LIMIT <= d <= DEN_LIMIT,
    ensures
        -NUM_LIMIT * DEN_LIMIT <= n * d <= NUM_LIMIT * DEN_LIMIT,
        n * d < i128::MAX,
        -i128::MAX < n * d,
{
    assert(-NUM_LIMIT * DEN_LIMIT <= n * d <= NUM_LIMIT * DEN_LIMIT) by (nonlinear_arith)
        requires
            -NUM_LIMIT <= n <= NUM_LIMIT,
            -DEN_LIMIT <= d <= DEN_LIMIT,
    ;
}

/// The rational ordering is transitive over positive denominators.
proof fn lemma_rat_le_trans(n1: int, d1: int, n2: int, d2: int, n3: int, d3: int)
    requires
        d1 >= 1,
        d2 >= 1,
        d3 >= 1,
        rat_le(n1, d1, n2, d2),
        rat_le(n2, d2, n3, d3),
    ensures
        rat_le(n1, d1, n3, d3),
{
    assert(n1 * d3 <= n3 * d1) by (nonlinear_arith)
        requires
            d1 >= 1,
            d2 >= 1,
            d3 >= 1,
            n1 * d2 <= n2 * d1,
            n2 * d3 <= n3 * d2,
    ;
}

/// Bound on the product of two differences of in-range scalars.
proof fn lemma_prod_bound(u: int, v: int)
    requires
        -2 * COORD_LIMIT <= u <= 2 * COORD_LIMIT,
        -2 * COORD_LIMIT <= v <= 2 * COORD_LIMIT,
    ensures
        -1099511627776 <= u * v <= 1099511627776,
        u == v ==> 0 <= u * v,
{
    assert(-1099511627776 <= u * v <= 1099511627776 && (u == v ==> 0 <= u * v))
        by (nonlinear_arith)
        requires
            -2 * COORD_LIMIT <= u <= 2 * COORD_LIMIT,
            -2 * COORD_LIMIT <= v <= 2 * COORD_LIMIT,
    ;
}

/// Bound on the square of a cross product of in-range differences.
proof fn lemma_sq_bound(u: int)
    requires
        -DEN_LIMIT <= u <= DEN_LIMIT,
    ensures
        0 <= u * u <= NUM_LIMIT,
{
    assert(0 <= u * u <= NUM_LIMIT) by (nonlinear_arith)
        requires
            -DEN_LIMIT <= u <= DEN_LIMIT,
    ;
}

/// The numerator and denominator of a segment distance over in-range
/// coordinates are nonnegative, the denominator positive, and both within
/// the limits of a well-formed result.
proof fn lemma_seg_bounds(p: Coord, a: Coord, b: Coord)
    requires
        in_bounds(p),
        in_bounds(a),
        in_bounds(b),
    ensures
        0 <= seg_num(p, a, b) <= NUM_LIMIT,
        1 <= seg_den(p, a, b) <= DEN_LIMIT,
{
    lemma_prod_bound(a.x - b.x, a.x - b.x);
    lemma_prod_bound(a.y - b.y, a.y - b.y);
    lemma_prod_bound(p.x - a.x, p.x - a.x);
    lemma_prod_bound(p.y - a.y, p.y - a.y);
    lemma_prod_bound(p.x - b.x, p.x - b.x);
    lemma_prod_bound(p.y - b.y, p.y - b.y);
    lemma_prod_bound(b.x - a.x, p.y - a.y);
    lemma_prod_bound(b.y - a.y, p.x - a.x);
    lemma_sq_bound(seg_cross(p, a, b));
    if seg_dot(p, a, b) > 0 && seg_dot(p, a, b) < d2(a, b) {
        assert(seg_den(p, a, b) == d2(a, b));
        assert(seg_den(p, a, b) >= 1);
    }
}

/// The exact squared distance from p to the segment (a, b): the nearest
/// endpoint when the projection of p onto the segment's line falls outside
/// the segment, the perpendicular foot otherwise.
fn seg_distance(p: Coord, a: Coord, b: Coord) -> (r: SquaredDistance)
    requires
        in_bounds(p),
        in_bounds(a),
        in_bounds(b),
    ensures
        r.num == seg_num(p, a, b),
        r.den == seg_den(p, a, b),
        r.wf(),
{
    proof {
        lemma_seg_bounds(p, a, b);
    }
    let dx: i128 = b.x as i128 - a.x as i128;
    let dy: i128 = b.y as i128 - a.y as i128;
    let px: i128 = p.x as i128 - a.x as i128;
    let py: i128 = p.y as i128 - a.y as i128;
    proof {
        lemma_prod_bound(dx as int, dx as int);
        lemma_prod_bound(dy as int, dy as int);
        lemma_prod_bound(px as int, px as int);
        lemma_prod_bound(py as int, py as int);
        lemma_prod_bound(dx as int, px as int);
        lemma_prod_bound(dy as int, py as int);
        lemma_prod_bound(dx as int, py as int);
        lemma_prod_bound(dy as int, px as int);
    }
    let len2: i128 = dx * dx + dy * dy;
    let dot: i128 = dx * px + dy * py;
    proof {
        assert(len2 == d2(a, b)) by (nonlinear_arith)
            requires
                len2 == (b.x - a.x) * (b.x - a.x) + (b.y - a.y) * (b.y - a.y),
                d2(a, b) == (a.x - b.x) * (a.x - b.x) + (a.y - b.y) * (a.y - b.y),
        ;
        assert(dot == seg_dot(p, a, b));
    }
    if dot <= 0 {
        SquaredDistance { num: px * px + py * py, den: 1 }
    } else if dot >= len2 {
        let qx: i128 = p.x as i128 - b.x as i128;
        let qy: i128 = p.y as i128 - b.y as i128;
        proof {
            lemma_prod_bound(qx as int, qx as int);
            lemma_prod_bound(qy as int, qy as int);
        }
        SquaredDistance { num: qx * qx + qy * qy, den: 1 }
    } else {
        let cr: i128 = dx * py - dy * px;
        proof {
            assert(cr == seg_cross(p, a, b));
            lemma_sq_bound(cr as int);
        }
        SquaredDistance { num: cr * cr, den: len2 }
    }
}

impl LineString {
    /// The minimum squared Euclidean distance from the query coordinate to
    /// any point on the path, taken over all of its segments: at most every
    /// per-segment squared distance, attained on some segment, and exactly
    /// zero precisely when the query lies on the path.
    pub fn distance_to(&self, p: Coord) -> (d: SquaredDistance)
        requires
            self@.len() >= 2,
            in_bounds_seq(self@),
            in_bounds(p),
        ensures
            d.wf(),
            forall|k: int|
                0 <= k < self@.len() - 1 ==> rat_le(
                    d.num as int,
                    d.den as int,
                    seg_num(p, self@[k], #[trigger] self@[k + 1]),
                    seg_den(p, self@[k], self@[k + 1]),
                ),
            exists|k: int|
                0 <= k < self@.len() - 1 && rat_eq(
                    d.num as int,
                    d.den as int,
                    seg_num(p, self@[k], #[trigger] self@[k + 1]),
                    seg_den(p, self@[k], self@[k + 1]),
                ),
            (d.num == 0) <==> on_path(p, self@),
    {
        let a0 = self.0[0];
        let b0 = self.0[1];
        let mut best = seg_distance(p, a0, b0);
        proof {
            assert(rat_eq(
                best.num as int,
                best.den as int,
                seg_num(p, self@[0int], self@[0int + 1]),
                seg_den(p, self@[0int], self@[0int + 1]),
            ));
        }
        let mut i: usize = 1;
        while i < self.0.len() - 1
            invariant
                1 <= i <= self@.len() - 1,
                self@.len() >= 2,
                in_bounds_seq(self@),
                in_bounds(p),
                best.wf(),
                forall|k: int|
                    0 <= k < i ==> rat_le(
                        best.num as int,
                        best.den as int,
                        seg_num(p, self@[k], #[trigger] self@[k + 1]),
                        seg_den(p, self@[k], self@[k + 1]),
                    ),
                exists|k: int|
                    0 <= k < i && rat_eq(
                        best.num as int,
                        best.den as int,
                        seg_num(p, self@[k], #[trigger] self@[k + 1]),
                        seg_den(p, self@[k], self@[k + 1]),
                    ),
            decreases self@.len() - i,
        {
            let a = self.0[i];
            let b = self.0[i + 1];
            let cur = seg_distance(p, a, b);
            proof {
                lemma_seg_bounds(p, a, b);
            }
            if !best.le(&cur) {
                proof {
                    assert forall|k: int| 0 <= k < i implies rat_le(
                        cur.num as int,
                        cur.den as int,
                        seg_num(p, self@[k], #[trigger] self@[k + 1]),
                        seg_den(p, self@[k], self@[k + 1]),
                    ) by {
                        lemma_seg_bounds(p, self@[k], self@[k + 1]);
                        lemma_rat_le_trans(
                            cur.num as int,
                            cur.den as int,
                            best.num as int,
                            best.den as int,
                            seg_num(p, self@[k], self@[k + 1]),
                            seg_den(p, self@[k], self@[k + 1]),
                        );
                    }
                }
                best = cur;
            }
            i = i + 1;
        }
        proof {
            if best.num == 0 {
                let k = choose|k: int|
                    0 <= k < self@.len() - 1 && rat_eq(
                        best.num as int,
                        best.den as int,
                        seg_num(p, self@[k], #[trigger] self@[k + 1]),
                        seg_den(p, self@[k], self@[k + 1]),
                    );
                lemma_seg_bounds(p, self@[k], self@[k + 1]);
                assert(seg_num(p, self@[k], self@[k + 1]) * best.den == 0);
                assert(seg_num(p, self@[k], self@[k + 1]) == 0) by (nonlinear_arith)
                    requires
                        seg_num(p, self@[k], self@[k + 1]) * best.den == 0,
                        best.den >= 1,
                ;
            }
            if on_path(p, self@) {
                let k = choose|k: int|
                    0 <= k < self@.len() - 1 && seg_num(p, self@[k], #[trigger] self@[k + 1]) == 0;
                lemma_seg_bounds(p, self@[k], self@[k + 1]);
                assert(rat_le(
                    best.num as int,
                    best.den as int,
                    seg_num(p, self@[k], self@[k + 1]),
                    seg_den(p, self@[k], self@[k + 1]),
                ));
                assert(best.num == 0) by (nonlinear_arith)
                    requires
                        best.num * seg_den(p, self@[k], self@[k + 1]) <= 0,
                        seg_den(p, self@[k], self@[k + 1]) >= 1,
                        best.num >= 0,
                ;
            }
        }
        best
    }
}

} // verus!
