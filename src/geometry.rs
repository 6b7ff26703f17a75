//! Points of the orbital plane and axis-aligned regions of it.
use vstd::prelude::*;

verus! {

/// A position in the orbital plane, in whole meters, with the central mass
/// at the origin.
#[derive(Clone, Copy, Debug, PartialEq, Eq, Structural)]
pub struct Point {
    pub x: i64,
    pub y: i64,
}

impl Point {
    pub fn new(x: i64, y: i64) -> (p: Point)
        ensures
            p.x == x,
            p.y == y,
    {
        Point { x, y }
    }
}

/// One edge of a region: a coordinate, or no edge at all on that side.
#[derive(Clone, Copy, Debug, PartialEq, Eq, Structural)]
pub enum Edge {
    Unbounded,
    At(i64),
}

/// `v` lies on or above the lower edge `e`.
pub open spec fn on_or_above(e: Edge, v: i64) -> bool {
    match e {
        Edge::Unbounded => true,
        Edge::At(b) => b <= v,
    }
}

/// `v` lies strictly below the upper edge `e`.
pub open spec fn strictly_below(e: Edge, v: i64) -> bool {
    match e {
        Edge::Unbounded => true,
        Edge::At(b) => v < b,
    }
}

fn edge_below_or_at(e: Edge, v: i64) -> (r: bool)
    ensures
        r == on_or_above(e, v),
{
    match e {
        Edge::Unbounded => true,
        Edge::At(b) => b <= v,
    }
}

fn edge_above(e: Edge, v: i64) -> (r: bool)
    ensures
        r == strictly_below(e, v),
{
    match e {
        Edge::Unbounded => true,
        Edge::At(b) => v < b,
    }
}

/// An axis-aligned region of the plane, closed on its lower edges and open on
/// its upper ones, so that regions which share an edge never overlap.
#[derive(Clone, Copy, Debug, PartialEq, Eq, Structural)]
pub struct DRect {
    pub min_x: Edge,
    pub max_x: Edge,
    pub min_y: Edge,
    pub max_y: Edge,
}

impl DRect {
    pub fn new(min_x: Edge, max_x: Edge, min_y: Edge, max_y: Edge) -> (r: DRect)
        ensures
            r.min_x == min_x,
            r.max_x == max_x,
            r.min_y == min_y,
            r.max_y == max_y,
    {
        DRect { min_x, max_x, min_y, max_y }
    }

    /// `p` lies inside the region.
    pub open spec fn holds(self, p: Point) -> bool {
        &&& on_or_above(self.min_x, p.x)
        &&& strictly_below(self.max_x, p.x)
        &&& on_or_above(self.min_y, p.y)
        &&& strictly_below(self.max_y, p.y)
    }

    pub fn contains(&self, p: Point) -> (r: bool)
        ensures
            r == self.holds(p),
    {
        edge_below_or_at(self.min_x, p.x) && edge_above(self.max_x, p.x) && edge_below_or_at(
            self.min_y,
            p.y,
        ) && edge_above(self.max_y, p.y)
    }
}

} // verus!
