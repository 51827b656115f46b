//! The primitive geometry value types: a coordinate pair and the derived
//! point, segment and triangle values built from coordinates.

use vstd::prelude::*;

verus! {

/// A single (x, y) coordinate with integer scalars.
#[derive(Clone, Copy, PartialEq, Eq, Structural, Debug, Hash)]
pub struct Coord {
    pub x: i64,
    pub y: i64,
}

impl Coord {
    /// Build a coordinate from its two scalars.
    pub fn new(x: i64, y: i64) -> (c: Coord)
        ensures
            c == (Coord { x, y }),
    {
        Coord { x, y }
    }
}

/// A coordinate reinterpreted as a standalone point value.
#[derive(Clone, Copy, PartialEq, Eq, Structural, Debug, Hash)]
pub struct Point(pub Coord);

impl Point {
    /// Build a point from its two scalars.
    pub fn new(x: i64, y: i64) -> (p: Point)
        ensures
            p == Point(Coord { x, y }),
    {
        Point(Coord { x, y })
    }

    /// The x scalar of this point.
    pub fn x(&self) -> (r: i64)
        ensures
            r == self.0.x,
    {
        self.0.x
    }

    /// The y scalar of this point.
    pub fn y(&self) -> (r: i64)
        ensures
            r == self.0.y,
    {
        self.0.y
    }
}

/// A directed segment between two coordinates.
#[derive(Clone, Copy, PartialEq, Eq, Structural, Debug, Hash)]
pub struct Line {
    pub start: Coord,
    pub end: Coord,
}

impl Line {
    /// Build a segment from its two endpoints.
    pub fn new(start: Coord, end: Coord) -> (l: Line)
        ensures
            l == (Line { start, end }),
    {
        Line { start, end }
    }
}

/// An ordered triple of coordinates.
#[derive(Clone, Copy, PartialEq, Eq, Structural, Debug, Hash)]
pub struct Triangle(pub Coord, pub Coord, pub Coord);

} // verus!
