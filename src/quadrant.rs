//! The four quarters of the plane around the central mass, used to follow a
//! body's progress round its orbit.
use vstd::prelude::*;

use crate::geometry::{DRect, Edge, Point};

verus! {

/// How many quarters the plane is split into.
pub const QUARTER_COUNT: usize = 4;

/// A sign vector: each component is -1, 0 or 1.
#[derive(Clone, Copy, Debug, PartialEq, Eq, Structural)]
pub struct Direction {
    pub x: i8,
    pub y: i8,
}

/// A quarter of the plane, and the direction in which a point of it lies
/// ahead of a starting position in it, for a body that moves forward.
#[derive(Clone, Copy, Debug, PartialEq, Eq, Structural)]
pub struct Quarter {
    pub direction: Direction,
    pub bounds: DRect,
}

/// The quarters in the order in which they are numbered: top right, bottom
/// right, bottom left, top left. A point on the x axis belongs to the quarter
/// above it, a point on the y axis to the quarter on its right.
pub open spec fn standard_quarter(i: int) -> Quarter {
    if i == 0 {
        Quarter {
            direction: Direction { x: -1i8, y: 0i8 },
            bounds: DRect {
                min_x: Edge::At(0),
                max_x: Edge::Unbounded,
                min_y: Edge::At(0),
                max_y: Edge::Unbounded,
            },
        }
    } else if i == 1 {
        Quarter {
            direction: Direction { x: 0i8, y: 1i8 },
            bounds: DRect {
                min_x: Edge::At(0),
                max_x: Edge::Unbounded,
                min_y: Edge::Unbounded,
                max_y: Edge::At(0),
            },
        }
    } else if i == 2 {
        Quarter {
            direction: Direction { x: 1i8, y: 0i8 },
            bounds: DRect {
                min_x: Edge::Unbounded,
                max_x: Edge::At(0),
                min_y: Edge::Unbounded,
                max_y: Edge::At(0),
            },
        }
    } else {
        Quarter {
            direction: Direction { x: 0i8, y: -1i8 },
            bounds: DRect {
                min_x: Edge::Unbounded,
                max_x: Edge::At(0),
                min_y: Edge::At(0),
                max_y: Edge::Unbounded,
            },
        }
    }
}

/// `qs` is the table of the four quarters, in their order.
pub open spec fn is_standard(qs: Seq<Quarter>) -> bool {
    &&& qs.len() == QUARTER_COUNT
    &&& forall|i: int| 0 <= i < QUARTER_COUNT ==> qs[i] == standard_quarter(i)
}

/// The number of the quarter that holds `p`, by the signs of its coordinates.
pub open spec fn quadrant_of(p: Point) -> int {
    if p.x >= 0 {
        if p.y >= 0 {
            0
        } else {
            1
        }
    } else {
        if p.y < 0 {
            2
        } else {
            3
        }
    }
}

/// The quarter after `i`, in the order of their numbers.
pub open spec fn ahead(i: int) -> int {
    (i + 1) % (QUARTER_COUNT as int)
}

/// The quarter before `i`, in the order of their numbers.
pub open spec fn behind(i: int) -> int {
    (i + QUARTER_COUNT - 1) % (QUARTER_COUNT as int)
}

/// A point `p` of a quarter whose direction is `dir` has gone past `start`:
/// on an axis where `dir` is 1 it is not below `start`, and on one where `dir`
/// is -1 it is below it.
pub open spec fn past_start(dir: Direction, p: Point, start: Point) -> bool {
    ||| (p.x >= start.x && dir.x == 1)
    ||| (p.x < start.x && dir.x == -1)
    ||| (p.y >= start.y && dir.y == 1)
    ||| (p.y < start.y && dir.y == -1)
}

/// The four quarters partition the plane: every point, on an axis or not,
/// lies in exactly one of them, the one that `quadrant_of` names.
pub proof fn lemma_quarters_partition(p: Point)
    ensures
        0 <= quadrant_of(p) < QUARTER_COUNT,
        standard_quarter(quadrant_of(p)).bounds.holds(p),
        forall|j: int|
            0 <= j < QUARTER_COUNT && #[trigger] standard_quarter(j).bounds.holds(p) ==> j
                == quadrant_of(p),
{
}

/// Builds the table of the four quarters.
pub fn create_quarters() -> (qs: Vec<Quarter>)
    ensures
        is_standard(qs@),
{
    let mut qs: Vec<Quarter> = Vec::new();
    // top right
    qs.push(
        Quarter {
            direction: Direction { x: -1, y: 0 },
            bounds: DRect::new(Edge::At(0), Edge::Unbounded, Edge::At(0), Edge::Unbounded),
        },
    );
    // bottom right
    qs.push(
        Quarter {
            direction: Direction { x: 0, y: 1 },
            bounds: DRect::new(Edge::At(0), Edge::Unbounded, Edge::Unbounded, Edge::At(0)),
        },
    );
    // bottom left
    qs.push(
        Quarter {
            direction: Direction { x: 1, y: 0 },
            bounds: DRect::new(Edge::Unbounded, Edge::At(0), Edge::Unbounded, Edge::At(0)),
        },
    );
    // top left
    qs.push(
        Quarter {
            direction: Direction { x: 0, y: -1 },
            bounds: DRect::new(Edge::Unbounded, Edge::At(0), Edge::At(0), Edge::Unbounded),
        },
    );
    qs
}

/// The index of the first quarter of `quarters` that holds `pos`.
pub fn find_quarter_idx(pos: Point, quarters: &[Quarter]) -> (i: usize)
    requires
        exists|j: int| 0 <= j < quarters@.len() && (#[trigger] quarters@[j]).bounds.holds(pos),
    ensures
        i < quarters@.len(),
        quarters@[i as int].bounds.holds(pos),
        forall|j: int| 0 <= j < i ==> !(#[trigger] quarters@[j]).bounds.holds(pos),
{
    let mut i: usize = 0;
    while i < quarters.len()
        invariant
            i <= quarters@.len(),
            forall|j: int| 0 <= j < i ==> !(#[trigger] quarters@[j]).bounds.holds(pos),
        decreases quarters@.len() - i,
    {
        if quarters[i].bounds.contains(pos) {
            return i;
        }
        i += 1;
    }
    // every quarter was tried: the requirement rules this out
    proof {
        let j = choose|j: int| 0 <= j < quarters@.len() && (#[trigger] quarters@[j]).bounds.holds(pos);
        assert(!quarters@[j].bounds.holds(pos));
    }
    0
}

/// The index of the quarter that holds `pos`, in the table of the four
/// quarters.
pub fn quarter_of(pos: Point, quarters: &[Quarter]) -> (i: usize)
    requires
        is_standard(quarters@),
    ensures
        i as int == quadrant_of(pos),
{
    proof {
        lemma_quarters_partition(pos);
        assert(quarters@[quadrant_of(pos)].bounds.holds(pos));
    }
    let i = find_quarter_idx(pos, quarters);
    proof {
        assert(quarters@[i as int] == standard_quarter(i as int));
    }
    i
}

/// The quarter after `idx`.
pub fn next_quarter(idx: usize) -> (r: usize)
    requires
        idx < QUARTER_COUNT,
    ensures
        r as int == ahead(idx as int),
{
    if idx >= QUARTER_COUNT - 1 {
        0
    } else {
        idx + 1
    }
}

/// The quarter before `idx`.
pub fn previous_quarter(idx: usize) -> (r: usize)
    requires
        idx < QUARTER_COUNT,
    ensures
        r as int == behind(idx as int),
{
    if idx > 0 {
        idx - 1
    } else {
        QUARTER_COUNT - 1
    }
}

/// Whether `p`, a point of the quarter `q`, has gone past `start`.
pub fn passed_start(q: &Quarter, p: Point, start: Point) -> (r: bool)
    ensures
        r == past_start(q.direction, p, start),
{
    let d = q.direction;
    (p.x >= start.x && d.x == 1) || (p.x < start.x && d.x == -1) || (p.y >= start.y && d.y == 1)
        || (p.y < start.y && d.y == -1)
}

} // verus!
