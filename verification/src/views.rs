//! The derived views over a path: points, one two-point segment per
//! adjacent pair, and one three-point triangle per consecutive triple.
//! Each view is a cursor over the borrowed path; the path itself is
//! unmodified by iteration and a view can be recreated at will.

use vstd::prelude::*;

use crate::coord::{Coord, Line, Point, Triangle};
use crate::line_string::LineString;

verus! {

/// The segments of a coordinate sequence: one per adjacent pair, in
/// traversal order, so exactly `len - 1` of them when `len >= 2` and none
/// otherwise. Segment `k` runs from coordinate `k` to coordinate `k + 1`.
pub open spec fn segments_of(s: Seq<Coord>) -> Seq<Line> {
    if s.len() < 2 {
        Seq::<Line>::empty()
    } else {
        Seq::new((s.len() - 1) as nat, |k: int| Line { start: s[k], end: s[k + 1] })
    }
}

/// The triangles of a coordinate sequence: one per consecutive triple, in
/// traversal order, so exactly `len - 2` of them when `len >= 3` and none
/// otherwise. Triangle `k` is made of coordinates `k`, `k + 1` and `k + 2`.
pub open spec fn triangles_of(s: Seq<Coord>) -> Seq<Triangle> {
    if s.len() < 3 {
        Seq::<Triangle>::empty()
    } else {
        Seq::new((s.len() - 2) as nat, |k: int| Triangle(s[k], s[k + 1], s[k + 2]))
    }
}

/// The coordinates of a sequence wrapped as standalone points.
pub open spec fn points_of(s: Seq<Coord>) -> Seq<Point> {
    s.map_values(|c: Coord| Point(c))
}

/// A point cursor over a borrowed path, traversable from either end.
pub struct PointsIter<'a> {
    ls: &'a LineString,
    front: usize,
    back: usize,
}

impl<'a> PointsIter<'a> {
    /// The points not yet yielded, in path order.
    pub closed spec fn remaining(self) -> Seq<Point> {
        points_of(self.ls@.subrange(self.front as int, self.back as int))
    }

    #[verifier::type_invariant]
    closed spec fn inv(self) -> bool {
        self.front <= self.back <= self.ls@.len()
    }

    /// The number of points not yet yielded.
    pub fn len(&self) -> (n: usize)
        ensures
            n == self.remaining().len(),
    {
        proof {
            use_type_invariant(self);
        }
        self.back - self.front
    }

    /// Yield the next point from the front, or nothing once the cursor is
    /// exhausted.
    pub fn next(&mut self) -> (r: Option<Point>)
        ensures
            old(self).remaining().len() == 0 ==> r is None,
            old(self).remaining().len() == 0 ==> final(self).remaining() == old(self).remaining(),
            old(self).remaining().len() > 0 ==> r == Some(old(self).remaining()[0]),
            old(self).remaining().len() > 0 ==> final(self).remaining() == old(self).remaining().drop_first(),
    {
        proof {
            use_type_invariant(&*self);
        }
        if self.front < self.back {
            let c = self.ls.0[self.front];
            self.front = self.front + 1;
            proof {
                assert(final(self).remaining() =~= old(self).remaining().drop_first());
            }
            Some(Point(c))
        } else {
            proof {
                assert(final(self).remaining() =~= old(self).remaining());
            }
            None
        }
    }

    /// Yield the next point from the back, or nothing once the cursor is
    /// exhausted.
    pub fn next_back(&mut self) -> (r: Option<Point>)
        ensures
            old(self).remaining().len() == 0 ==> r is None,
            old(self).remaining().len() == 0 ==> final(self).remaining() == old(self).remaining(),
            old(self).remaining().len() > 0 ==> r == Some(old(self).remaining().last()),
            old(self).remaining().len() > 0 ==> final(self).remaining() == old(self).remaining().drop_last(),
    {
        proof {
            use_type_invariant(&*self);
        }
        if self.front < self.back {
            let c = self.ls.0[self.back - 1];
            self.back = self.back - 1;
            proof {
                assert(final(self).remaining() =~= old(self).remaining().drop_last());
            }
            Some(Point(c))
        } else {
            proof {
                assert(final(self).remaining() =~= old(self).remaining());
            }
            None
        }
    }
}

/// A segment cursor over a borrowed path.
pub struct LinesIter<'a> {
    ls: &'a LineString,
    pos: usize,
}

impl<'a> LinesIter<'a> {
    /// The segments not yet yielded, in traversal order.
    pub closed spec fn remaining(self) -> Seq<Line> {
        segments_of(self.ls@).skip(self.pos as int)
    }

    #[verifier::type_invariant]
    closed spec fn inv(self) -> bool {
        self.pos <= segments_of(self.ls@).len()
    }

    /// The number of segments not yet yielded.
    pub fn len(&self) -> (n: usize)
        ensures
            n == self.remaining().len(),
    {
        proof {
            use_type_invariant(self);
        }
        if self.ls.0.len() < 2 {
            0
        } else {
            self.ls.0.len() - 1 - self.pos
        }
    }

    /// Yield the next segment, or nothing once the cursor is exhausted.
    pub fn next(&mut self) -> (r: Option<Line>)
        ensures
            old(self).remaining().len() == 0 ==> r is None,
            old(self).remaining().len() == 0 ==> final(self).remaining() == old(self).remaining(),
            old(self).remaining().len() > 0 ==> r == Some(old(self).remaining()[0]),
            old(self).remaining().len() > 0 ==> final(self).remaining() == old(self).remaining().drop_first(),
    {
        proof {
            use_type_invariant(&*self);
        }
        if self.ls.0.len() >= 2 && self.pos < self.ls.0.len() - 1 {
            let start = self.ls.0[self.pos];
            let end = self.ls.0[self.pos + 1];
            self.pos = self.pos + 1;
            proof {
                assert(final(self).remaining() =~= old(self).remaining().drop_first());
            }
            Some(Line { start, end })
        } else {
            proof {
                assert(final(self).remaining() =~= old(self).remaining());
            }
            None
        }
    }
}

/// A triangle cursor over a borrowed path.
pub struct TrianglesIter<'a> {
    ls: &'a LineString,
    pos: usize,
}

impl<'a> TrianglesIter<'a> {
    /// The triangles not yet yielded, in traversal order.
    pub closed spec fn remaining(self) -> Seq<Triangle> {
        triangles_of(self.ls@).skip(self.pos as int)
    }

    #[verifier::type_invariant]
    closed spec fn inv(self) -> bool {
        self.pos <= triangles_of(self.ls@).len()
    }

    /// The number of triangles not yet yielded.
    pub fn len(&self) -> (n: usize)
        ensures
            n == self.remaining().len(),
    {
        proof {
            use_type_invariant(self);
        }
        if self.ls.0.len() < 3 {
            0
        } else {
            self.ls.0.len() - 2 - self.pos
        }
    }

    /// Yield the next triangle, or nothing once the cursor is exhausted.
    pub fn next(&mut self) -> (r: Option<Triangle>)
        ensures
            old(self).remaining().len() == 0 ==> r is None,
            old(self).remaining().len() == 0 ==> final(self).remaining() == old(self).remaining(),
            old(self).remaining().len() > 0 ==> r == Some(old(self).remaining()[0]),
            old(self).remaining().len() > 0 ==> final(self).remaining() == old(self).remaining().drop_first(),
    {
        proof {
            use_type_invariant(&*self);
        }
        if self.ls.0.len() >= 3 && self.pos < self.ls.0.len() - 2 {
            let a = self.ls.0[self.pos];
            let b = self.ls.0[self.pos + 1];
            let c = self.ls.0[self.pos + 2];
            self.pos = self.pos + 1;
            proof {
                assert(final(self).remaining() =~= old(self).remaining().drop_first());
            }
            Some(Triangle(a, b, c))
        } else {
            proof {
                assert(final(self).remaining() =~= old(self).remaining());
            }
            None
        }
    }
}

impl LineString {
    /// Return a cursor yielding the coordinates of the path as points,
    /// traversable from either end.
    pub fn points_iter(&self) -> (it: PointsIter)
        ensures
            it.remaining() == points_of(self@),
    {
        let it = PointsIter { ls: self, front: 0, back: self.0.len() };
        proof {
            assert(it.remaining() =~= points_of(self@));
        }
        it
    }

    /// Return the coordinates of the path as an owned vector of points.
    pub fn into_points(self) -> (v: Vec<Point>)
        ensures
            v@ == points_of(self@),
    {
        let mut v: Vec<Point> = Vec::new();
        let mut i: usize = 0;
        while i < self.0.len()
            invariant
                0 <= i <= self@.len(),
                v@.len() == i,
                forall|k: int| 0 <= k < i ==> v@[k] == Point(self@[k]),
            decreases self@.len() - i,
        {
            v.push(Point(self.0[i]));
            i = i + 1;
        }
        proof {
            assert(v@ =~= points_of(self@));
        }
        v
    }

    /// Return a cursor yielding one segment for each adjacent pair of
    /// coordinates: exactly `num_coords() - 1` segments when the path has
    /// two or more coordinates, none otherwise.
    pub fn lines(&self) -> (it: LinesIter)
        ensures
            it.remaining() == segments_of(self@),
    {
        let it = LinesIter { ls: self, pos: 0 };
        proof {
            assert(it.remaining() =~= segments_of(self@));
        }
        it
    }

    /// Return a cursor yielding one triangle for each consecutive triple of
    /// coordinates: exactly `num_coords() - 2` triangles when the path has
    /// three or more coordinates, none otherwise.
    pub fn triangles(&self) -> (it: TrianglesIter)
        ensures
            it.remaining() == triangles_of(self@),
    {
        let it = TrianglesIter { ls: self, pos: 0 };
        proof {
            assert(it.remaining() =~= triangles_of(self@));
        }
        it
    }
}

} // verus!
