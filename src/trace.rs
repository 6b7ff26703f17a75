//! Following a body round one revolution. The caller advances a private copy
//! of the body step by step and hands each new position to an `OrbitTracer`,
//! which decides from the quarters that the positions pass through when the
//! revolution is complete, and then builds its polyline.
use vstd::prelude::*;

use crate::geometry::Point;
use crate::path::{decimate_orbit, orbit_polyline, quadrants, MAX_POINTS};
use crate::quadrant::{
    ahead, behind, create_quarters, is_standard, next_quarter, previous_quarter, quadrant_of,
    quarter_of, Quarter,
};

verus! {

/// Where a trace stands.
#[derive(Clone, Copy, Debug, PartialEq, Eq, Structural)]
pub enum TraceStatus {
    /// More positions are needed.
    Tracing,
    /// The revolution is complete.
    Closed,
    /// The step limit was reached before the revolution was complete.
    LimitReached,
}

/// The quarter that came before the `i`-th one of `qs`, the starting quarter
/// `sq` before the first.
pub open spec fn previous_in(sq: int, qs: Seq<int>, i: int) -> int {
    if i == 0 {
        sq
    } else {
        qs[i - 1]
    }
}

/// Somewhere in `qs` the trace came back into the starting quarter `sq` from
/// the quarter after it: the lap back to the start has begun.
pub open spec fn lap_begun(sq: int, qs: Seq<int>) -> bool {
    exists|i: int| 0 <= i < qs.len() && qs[i] == sq && #[trigger] previous_in(sq, qs, i) == ahead(sq)
}

/// The `k`-th quarter of `qs` is the one before `sq`, reached after the lap
/// back to the start had begun: the revolution closes there.
pub open spec fn closes_at(sq: int, qs: Seq<int>, k: int) -> bool {
    &&& qs[k] == behind(sq)
    &&& lap_begun(sq, qs.take(k))
}

/// The status of a trace from `start` through `ps` with at most `limit` steps.
pub open spec fn status_of(start: Point, ps: Seq<Point>, limit: nat) -> TraceStatus {
    if ps.len() > 0 && closes_at(quadrant_of(start), quadrants(ps), ps.len() - 1) {
        TraceStatus::Closed
    } else if ps.len() >= limit {
        TraceStatus::LimitReached
    } else {
        TraceStatus::Tracing
    }
}

/// No position of `ps` but perhaps the last closes the revolution.
pub open spec fn open_before_last(start: Point, ps: Seq<Point>) -> bool {
    forall|k: int| 0 <= k < ps.len() - 1 ==> !closes_at(quadrant_of(start), quadrants(ps), k)
}

/// A trace never closes on its first position, whatever quarter that
/// position lies in: the lap back to the start cannot have begun yet.
pub proof fn lemma_first_position_never_closes(start: Point, p: Point, limit: nat)
    ensures
        status_of(start, seq![p], limit) != TraceStatus::Closed,
{
    assert(quadrants(seq![p]).take(0) =~= Seq::<int>::empty());
}

/// The revolution-detection state of one path computation.
pub struct OrbitTracer {
    quarters: Vec<Quarter>,
    start: Point,
    start_quarter: usize,
    last_quarter: usize,
    lapped: bool,
    points: Vec<Point>,
    max_steps: usize,
    status: TraceStatus,
}

proof fn lemma_lap_begun_push(sq: int, qs: Seq<int>, q: int)
    ensures
        lap_begun(sq, qs.push(q)) == (lap_begun(sq, qs) || (q == sq && previous_in(
            sq,
            qs.push(q),
            qs.len() as int,
        ) == ahead(sq))),
{
    let qs2 = qs.push(q);
    if lap_begun(sq, qs2) {
        let i = choose|i: int|
            0 <= i < qs2.len() && qs2[i] == sq && #[trigger] previous_in(sq, qs2, i) == ahead(sq);
        if i < qs.len() {
            assert(previous_in(sq, qs, i) == previous_in(sq, qs2, i));
        }
    }
    if lap_begun(sq, qs) {
        let i = choose|i: int|
            0 <= i < qs.len() && qs[i] == sq && #[trigger] previous_in(sq, qs, i) == ahead(sq);
        assert(previous_in(sq, qs, i) == previous_in(sq, qs2, i));
    }
}

impl OrbitTracer {
    pub closed spec fn start_point(&self) -> Point {
        self.start
    }

    /// The positions recorded so far.
    pub closed spec fn positions(&self) -> Seq<Point> {
        self.points@
    }

    pub closed spec fn limit(&self) -> nat {
        self.max_steps as nat
    }

    pub closed spec fn wf(&self) -> bool {
        &&& is_standard(self.quarters@)
        &&& self.start_quarter as int == quadrant_of(self.start)
        &&& self.last_quarter as int == previous_in(
            quadrant_of(self.start),
            quadrants(self.points@),
            self.points@.len() as int,
        )
        &&& self.lapped == lap_begun(quadrant_of(self.start), quadrants(self.points@))
        &&& self.points@.len() <= self.max_steps
        &&& self.status == status_of(self.start, self.points@, self.max_steps as nat)
        &&& open_before_last(self.start, self.points@)
    }

    /// The status of the trace.
    pub closed spec fn state(&self) -> TraceStatus {
        self.status
    }

    /// A trace that starts at `start` and gives up after `max_steps` positions.
    pub fn new(start: Point, max_steps: usize) -> (t: OrbitTracer)
        ensures
            t.wf(),
            t.start_point() == start,
            t.positions() == Seq::<Point>::empty(),
            t.limit() == max_steps,
            t.state() == status_of(start, Seq::<Point>::empty(), max_steps as nat),
    {
        let quarters = create_quarters();
        let start_quarter = quarter_of(start, quarters.as_slice());
        let status = if max_steps == 0 {
            TraceStatus::LimitReached
        } else {
            TraceStatus::Tracing
        };
        let t = OrbitTracer {
            quarters,
            start,
            start_quarter,
            last_quarter: start_quarter,
            lapped: false,
            points: Vec::new(),
            max_steps,
            status,
        };
        assert(quadrants(t.points@) =~= Seq::<int>::empty());
        t
    }

    pub fn status(&self) -> (s: TraceStatus)
        requires
            self.wf(),
        ensures
            s == self.state(),
            s == status_of(self.start_point(), self.positions(), self.limit()),
    {
        self.status
    }

    /// Records the next position of the body. Once the trace has closed or
    /// reached its limit, it stays as it is.
    pub fn record(&mut self, p: Point) -> (s: TraceStatus)
        requires
            old(self).wf(),
        ensures
            final(self).wf(),
            final(self).start_point() == old(self).start_point(),
            final(self).limit() == old(self).limit(),
            old(self).state() == TraceStatus::Tracing ==> final(self).positions() == old(
                self,
            ).positions().push(p),
            old(self).state() != TraceStatus::Tracing ==> final(self).positions() == old(
                self,
            ).positions(),
            s == final(self).state(),
            final(self).state() == status_of(
                final(self).start_point(),
                final(self).positions(),
                final(self).limit(),
            ),
            open_before_last(final(self).start_point(), final(self).positions()),
            final(self).positions().len() <= final(self).limit(),
    {
        if self.status != TraceStatus::Tracing {
            return self.status;
        }
        let ghost sq = quadrant_of(self.start);
        let ghost qs = quadrants(self.points@);
        let current = quarter_of(p, self.quarters.as_slice());
        let sq_exec = self.start_quarter;
        let ahead_q = next_quarter(sq_exec);
        let behind_q = previous_quarter(sq_exec);
        if current == sq_exec && self.last_quarter == ahead_q {
            self.lapped = true;
        }
        self.last_quarter = current;
        self.points.push(p);
        proof {
            let qs2 = quadrants(self.points@);
            assert(qs2 =~= qs.push(current as int));
            lemma_lap_begun_push(sq, qs, current as int);
            assert(qs2.take(qs.len() as int) =~= qs);
            assert forall|k: int| 0 <= k < qs2.len() - 1 implies !closes_at(sq, qs2, k) by {
                assert(!closes_at(sq, qs, k));
                assert(qs2.take(k) =~= qs.take(k));
            }
        }
        if current == behind_q && self.lapped {
            self.status = TraceStatus::Closed;
        } else if self.points.len() >= self.max_steps {
            self.status = TraceStatus::LimitReached;
        }
        self.status
    }

    /// The polyline of the revolution, once the trace has closed.
    pub fn orbit_path(&self) -> (r: Option<Vec<Point>>)
        requires
            self.wf(),
        ensures
            r.is_some() == (self.state() == TraceStatus::Closed),
            r matches Some(v) ==> v@ == orbit_polyline(
                self.positions(),
                self.start_point(),
                quadrant_of(self.start_point()),
                behind(quadrant_of(self.start_point())),
            ),
            r matches Some(v) ==> v@.len() <= MAX_POINTS + 1,
            r matches Some(v) ==> (v@.len() > 0 ==> v@[0] == v@[v@.len() - 1]),
    {
        if self.status != TraceStatus::Closed {
            return None;
        }
        let path = decimate_orbit(
            &self.points,
            self.start,
            self.start_quarter,
            self.last_quarter,
            self.quarters.as_slice(),
        );
        Some(path)
    }
}

} // verus!
