//! The path itself: an ordered sequence of coordinates, with its
//! construction, indexing, closing operation and closedness test.

use vstd::prelude::*;

use crate::coord::Coord;

verus! {

/// An ordered collection of coordinates, representing a path between
/// locations. A path is _closed_ if it is empty, or if the first and last
/// coordinates are the same. A path is valid if it is empty or has two or
/// more coordinates; validity is not enforced, and the derived views are
/// unspecified on a path of one coordinate.
pub struct LineString(pub Vec<Coord>);

impl View for LineString {
    type V = Seq<Coord>;

    open spec fn view(&self) -> Seq<Coord> {
        self.0@
    }
}

/// Whether a coordinate sequence is closed: empty, or first equals last.
pub open spec fn is_closed_seq(s: Seq<Coord>) -> bool {
    s.len() == 0 || s[0] == s[s.len() - 1]
}

/// The result of closing a coordinate sequence: unchanged when already
/// closed, otherwise the first coordinate is appended at the end.
pub open spec fn close_seq(s: Seq<Coord>) -> Seq<Coord> {
    if is_closed_seq(s) {
        s
    } else {
        s.push(s[0])
    }
}

/// The coordinate a convertible (x, y) pair stands for.
pub open spec fn coord_of_pair(p: (i64, i64)) -> Coord {
    Coord { x: p.0, y: p.1 }
}

/// A sequence of convertible pairs read back as coordinates, in order.
pub open spec fn coords_of_pairs(s: Seq<(i64, i64)>) -> Seq<Coord> {
    s.map_values(|p: (i64, i64)| coord_of_pair(p))
}

impl LineString {
    /// Build a path that walks the given coordinates in order.
    pub fn new(coords: Vec<Coord>) -> (ls: LineString)
        ensures
            ls@ == coords@,
    {
        LineString(coords)
    }

    /// Build a path from coordinate-convertible (x, y) pairs, converting
    /// each in order: no reordering, no deduplication, no validation.
    pub fn from_pairs(pairs: &Vec<(i64, i64)>) -> (ls: LineString)
        ensures
            ls@ == coords_of_pairs(pairs@),
    {
        let mut coords: Vec<Coord> = Vec::new();
        let mut i: usize = 0;
        while i < pairs.len()
            invariant
                0 <= i <= pairs@.len(),
                coords@.len() == i,
                forall|k: int| 0 <= k < i ==> coords@[k] == coord_of_pair(#[trigger] pairs@[k]),
            decreases pairs@.len() - i,
        {
            let (x, y) = pairs[i];
            coords.push(Coord { x, y });
            i = i + 1;
        }
        proof {
            assert(coords@ =~= coords_of_pairs(pairs@));
        }
        LineString(coords)
    }

    /// Return the number of coordinates in the path.
    pub fn num_coords(&self) -> (n: usize)
        ensures
            n == self@.len(),
    {
        self.0.len()
    }

    /// Checks if the path is closed; i.e. it is either empty or the first
    /// and last coordinates are the same.
    pub fn is_closed(&self) -> (b: bool)
        ensures
            b == is_closed_seq(self@),
    {
        if self.0.len() == 0 {
            true
        } else {
            let first = self.0[0];
            let last = self.0[self.0.len() - 1];
            first == last
        }
    }

    /// Close the path: if it has at least one coordinate and the first does
    /// not equal the last, append a copy of the first coordinate. Never
    /// changes the coordinate at position 0, and only ever appends.
    pub fn close(&mut self)
        ensures
            final(self)@ == close_seq(old(self)@),
    {
        if !self.is_closed() {
            let first = self.0[0];
            self.0.push(first);
        }
    }

    /// Read the coordinate at a position.
    pub fn coord_at(&self, i: usize) -> (c: Coord)
        requires
            i < self@.len(),
        ensures
            c == self@[i as int],
    {
        self.0[i]
    }

    /// Replace the coordinate at a position.
    pub fn set_coord(&mut self, i: usize, c: Coord)
        requires
            i < old(self)@.len(),
        ensures
            final(self)@ == old(self)@.update(i as int, c),
    {
        self.0.set(i, c);
    }

    /// Append one coordinate at the end of the path.
    pub fn push(&mut self, c: Coord)
        ensures
            final(self)@ == old(self)@.push(c),
    {
        self.0.push(c);
    }
}

/// Round trip: building a path from a sequence of convertible pairs and
/// reading its coordinates back as (x, y) pairs reproduces the original
/// sequence exactly, with no reordering and no loss.
pub proof fn lemma_pairs_round_trip(pairs: Seq<(i64, i64)>)
    ensures
        coords_of_pairs(pairs).map_values(|c: Coord| (c.x, c.y)) == pairs,
{
    assert(coords_of_pairs(pairs).map_values(|c: Coord| (c.x, c.y)) =~= pairs);
}

/// Closing only ever appends: the existing coordinates stay in place and
/// in order, the length grows by at most one, and the coordinate at
/// position 0 never changes.
pub proof fn lemma_close_appends_only(s: Seq<Coord>)
    ensures
        close_seq(s).len() <= s.len() + 1,
        close_seq(s).subrange(0, s.len() as int) == s,
        s.len() > 0 ==> close_seq(s)[0] == s[0],
{
    assert(close_seq(s).subrange(0, s.len() as int) =~= s);
}

/// Closing is idempotent: closing an already-closed result changes nothing,
/// so closing twice yields the same sequence as closing once.
pub proof fn lemma_close_idempotent(s: Seq<Coord>)
    ensures
        is_closed_seq(close_seq(s)),
        close_seq(close_seq(s)) == close_seq(s),
{
    if !is_closed_seq(s) {
        let t = s.push(s[0]);
        assert(t[0] == s[0]);
        assert(t[t.len() - 1] == s[0]);
    }
}

} // verus!
