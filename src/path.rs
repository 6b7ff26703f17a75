//! Turning the raw positions of one traced revolution into a short closed
//! polyline: the overshoot past the start is trimmed, the rest is thinned out
//! in time order, the point where the orbit closes follows, and the first
//! point is repeated at the end so that the loop is closed.
use vstd::prelude::*;

use crate::geometry::Point;
use crate::quadrant::{
    is_standard, passed_start, past_start, quadrant_of, quarter_of,
    standard_quarter, Quarter, QUARTER_COUNT,
};
use vstd::arithmetic::div_mod::lemma_fundamental_div_mod_converse;

verus! {

/// The number of points that thinning aims at.
pub const MAX_POINTS: usize = 128;

/// The quarter of each point of `ps`.
pub open spec fn quadrants(ps: Seq<Point>) -> Seq<int> {
    ps.map_values(|p: Point| quadrant_of(p))
}

/// A point lies past the end of the revolution: it is in the last quarter that
/// the trace reached, `lq`, or in the starting quarter `sq` and past `start`.
pub open spec fn overshoot(sq: int, lq: int, start: Point, p: Point) -> bool {
    ||| quadrant_of(p) == lq
    ||| (quadrant_of(p) == sq && past_start(standard_quarter(sq).direction, p, start))
}

/// A point of the starting quarter `sq`, but not of `lq`, that lies past `start`.
pub open spec fn closes(sq: int, lq: int, start: Point, p: Point) -> bool {
    &&& quadrant_of(p) != lq
    &&& quadrant_of(p) == sq
    &&& past_start(standard_quarter(sq).direction, p, start)
}

/// The points that trimming keeps.
pub open spec fn kept(sq: int, lq: int, start: Point) -> spec_fn(Point) -> bool {
    |p: Point| !overshoot(sq, lq, start, p)
}

/// The points that may close the revolution.
pub open spec fn closing(sq: int, lq: int, start: Point) -> spec_fn(Point) -> bool {
    |p: Point| closes(sq, lq, start, p)
}

/// Where the tail of `ps` that lies in the quarters `sq` and `lq` begins: one
/// past the last point in another quarter, or 0 if there is none.
pub open spec fn tail_start(ps: Seq<Point>, sq: int, lq: int) -> int
    decreases ps.len(),
{
    if ps.len() == 0 {
        0
    } else if quadrant_of(ps.last()) != sq && quadrant_of(ps.last()) != lq {
        ps.len() as int
    } else {
        tail_start(ps.drop_last(), sq, lq)
    }
}

/// `ps` without the points of its tail that overshoot the revolution.
pub open spec fn trimmed(ps: Seq<Point>, start: Point, sq: int, lq: int) -> Seq<Point> {
    let c = tail_start(ps, sq, lq);
    ps.take(c) + ps.skip(c).filter(kept(sq, lq, start))
}

/// The first point of the tail of `ps` that closes the revolution, if any.
pub open spec fn closing_point(ps: Seq<Point>, start: Point, sq: int, lq: int) -> Option<Point> {
    let f = ps.skip(tail_start(ps, sq, lq)).filter(closing(sq, lq, start));
    if f.len() > 0 {
        Some(f[0])
    } else {
        None
    }
}

/// The first element of `s`, and then every `n`-th one; all of `s` when `n`
/// is 0.
pub open spec fn every_nth(s: Seq<Point>, n: int) -> Seq<Point> {
    if n <= 0 {
        s
    } else {
        let count = if s.len() == 0 {
            0
        } else {
            (s.len() - 1) / n + 1
        };
        Seq::new(count as nat, |k: int| s[k * n])
    }
}

/// How many trimmed positions thinning keeps at most: room is left for the
/// closing point and the repeated first point within `MAX_POINTS + 1`.
pub const KEPT_POSITIONS: usize = 127;

/// The stride that thins `m` positions down to at most `KEPT_POSITIONS`:
/// their number divided by `KEPT_POSITIONS`, rounded up.
pub open spec fn stride_for(m: int) -> int {
    (m + KEPT_POSITIONS - 1) / (KEPT_POSITIONS as int)
}

/// The positions of the polyline before it returns to its first one: the
/// trimmed positions thinned out to their stride, in time order, then the
/// closing point, where there is one.
pub open spec fn polyline_body(ps: Seq<Point>, start: Point, sq: int, lq: int) -> Seq<Point> {
    let t = trimmed(ps, start, sq, lq);
    let thinned = every_nth(t, stride_for(t.len() as int));
    match closing_point(ps, start, sq, lq) {
        Some(c) => thinned.push(c),
        None => thinned,
    }
}

/// The polyline of a revolution traced from `start` through the positions
/// `ps` and ended in the quarter `lq`: its body, then the body's first point
/// again, so that the polyline is closed.
pub open spec fn orbit_polyline(ps: Seq<Point>, start: Point, sq: int, lq: int) -> Seq<Point> {
    let body = polyline_body(ps, start, sq, lq);
    if body.len() == 0 {
        body
    } else {
        body.push(body[0])
    }
}

proof fn lemma_tail_start_bounds(ps: Seq<Point>, sq: int, lq: int)
    ensures
        0 <= tail_start(ps, sq, lq) <= ps.len(),
    decreases ps.len(),
{
    if ps.len() > 0 {
        lemma_tail_start_bounds(ps.drop_last(), sq, lq);
    }
}

proof fn lemma_filter_push(s: Seq<Point>, x: Point, f: spec_fn(Point) -> bool)
    ensures
        s.push(x).filter(f) == (if f(x) {
            s.filter(f).push(x)
        } else {
            s.filter(f)
        }),
{
    reveal(Seq::filter);
    assert(s.push(x).drop_last() =~= s);
}

/// The index where the tail of `points` in the quarters `sq` and `lq` begins.
fn tail_start_index(points: &Vec<Point>, sq: usize, lq: usize, quarters: &[Quarter]) -> (c: usize)
    requires
        is_standard(quarters@),
    ensures
        c as int == tail_start(points@, sq as int, lq as int),
{
    let mut i = points.len();
    assert(points@.take(i as int) =~= points@);
    while i > 0
        invariant
            is_standard(quarters@),
            i <= points@.len(),
            tail_start(points@.take(i as int), sq as int, lq as int) == tail_start(
                points@,
                sq as int,
                lq as int,
            ),
        decreases i,
    {
        let q = quarter_of(points[i - 1], quarters);
        if q != sq && q != lq {
            assert(points@.take(i as int).last() == points@[i - 1]);
            return i;
        }
        assert(points@.take(i as int).drop_last() =~= points@.take(i - 1));
        i -= 1;
    }
    0
}

/// Splits off the overshoot at the end of `points`, traced from `start` in the
/// quarter `sq` and ended in the quarter `lq`: walking back from the end, the
/// points of `lq` and those of `sq` that lie past `start` are dropped, up to
/// the last point in another quarter. Returns what is left, and the earliest
/// dropped point of `sq`, where the orbit closes.
pub fn trim_overshoot(
    points: &Vec<Point>,
    start: Point,
    sq: usize,
    lq: usize,
    quarters: &[Quarter],
) -> (r: (Vec<Point>, Option<Point>))
    requires
        is_standard(quarters@),
        sq < QUARTER_COUNT,
    ensures
        r.0@ == trimmed(points@, start, sq as int, lq as int),
        r.1 == closing_point(points@, start, sq as int, lq as int),
{
    let c = tail_start_index(points, sq, lq, quarters);
    proof {
        lemma_tail_start_bounds(points@, sq as int, lq as int);
    }
    let ghost ps = points@;
    let ghost kp = kept(sq as int, lq as int, start);
    let ghost cp = closing(sq as int, lq as int, start);
    let mut out: Vec<Point> = Vec::new();
    let mut i: usize = 0;
    while i < c
        invariant
            c <= points@.len(),
            i <= c,
            out@ == ps.take(i as int),
            ps == points@,
        decreases c - i,
    {
        out.push(points[i]);
        assert(ps.take(i + 1) =~= ps.take(i as int).push(ps[i as int]));
        i += 1;
    }
    proof {
        reveal(Seq::filter);
        assert(ps.subrange(c as int, c as int) =~= Seq::<Point>::empty());
        assert(out@ =~= ps.take(c as int) + ps.subrange(c as int, c as int).filter(kp));
    }
    let mut close: Option<Point> = None;
    while i < points.len()
        invariant
            is_standard(quarters@),
            sq < QUARTER_COUNT,
            c <= i <= points@.len(),
            ps == points@,
            kp == kept(sq as int, lq as int, start),
            cp == closing(sq as int, lq as int, start),
            out@ == ps.take(c as int) + ps.subrange(c as int, i as int).filter(kp),
            close == (if ps.subrange(c as int, i as int).filter(cp).len() > 0 {
                Some(ps.subrange(c as int, i as int).filter(cp)[0])
            } else {
                None::<Point>
            }),
        decreases points@.len() - i,
    {
        let p = points[i];
        let q = quarter_of(p, quarters);
        let ghost before = ps.subrange(c as int, i as int);
        proof {
            assert(ps.subrange(c as int, i + 1) =~= before.push(p));
            lemma_filter_push(before, p, kp);
            lemma_filter_push(before, p, cp);
            assert(quarters@[sq as int] == standard_quarter(sq as int));
        }
        if q == lq {
            // beyond the revolution: dropped
        } else if q == sq {
            if passed_start(&quarters[sq], p, start) {
                if close.is_none() {
                    close = Some(p);
                }
            } else {
                out.push(p);
            }
        } else {
            out.push(p);
        }
        proof {
            assert(out@ =~= ps.take(c as int) + ps.subrange(c as int, i + 1).filter(kp));
            if before.filter(cp).len() > 0 {
                assert(before.push(p).filter(cp)[0] == before.filter(cp)[0]);
            }
        }
        i += 1;
    }
    assert(ps.subrange(c as int, ps.len() as int) =~= ps.skip(c as int));
    (out, close)
}

/// The first element of `values`, and then every `n`-th one; all of them when
/// `n` is 0.
pub fn every_nth_element(values: Vec<Point>, n: usize) -> (r: Vec<Point>)
    ensures
        r@ == every_nth(values@, n as int),
{
    if n == 0 {
        return values;
    }
    let len = values.len();
    let mut out: Vec<Point> = Vec::new();
    let mut i: usize = 0;
    assert(out@.len() * n == 0);
    while i < len
        invariant
            n > 0,
            len == values@.len(),
            (out@.len() * n < len && i == out@.len() * n) || (out@.len() * n >= len && i == len),
            out@.len() == 0 || (out@.len() - 1) * n < len,
            forall|k: int| 0 <= k < out@.len() ==> #[trigger] out@[k] == values@[k * n],
        decreases len - i,
    {
        let ghost count = out@.len() as int;
        let ghost before = out@;
        out.push(values[i]);
        proof {
            assert(i == count * n);
            assert((count + 1) * n == count * n + n) by (nonlinear_arith);
            assert forall|j: int| 0 <= j < out@.len() implies #[trigger] out@[j] == values@[j
                * n] by {
                if j == count {
                    assert(out@[j] == values@[i as int]);
                } else {
                    assert(out@[j] == before[j]);
                }
            }
        }
        if n < len - i {
            i = i + n;
        } else {
            i = len;
        }
    }
    proof {
        let k = out@.len() as int;
        if len > 0 {
            assert(k > 0);
            let r = (len - 1) - (k - 1) * n;
            assert((k - 1) * n + n == k * n) by (nonlinear_arith);
            lemma_fundamental_div_mod_converse(len - 1, n as int, k - 1, r);
        }
        assert(out@ =~= every_nth(values@, n as int));
    }
    out
}

/// The stride that thins `m` positions down to at most `MAX_POINTS`.
fn stride(m: usize) -> (s: usize)
    ensures
        s as int == stride_for(m as int),
{
    let q = m / KEPT_POSITIONS;
    if m % KEPT_POSITIONS == 0 {
        q
    } else {
        q + 1
    }
}

/// The polyline of a revolution traced from `start`, in the quarter `sq`,
/// through `points`, ended in the quarter `lq`. It starts and ends at the
/// same point and has at most `MAX_POINTS + 1` points.
pub fn decimate_orbit(
    points: &Vec<Point>,
    start: Point,
    sq: usize,
    lq: usize,
    quarters: &[Quarter],
) -> (r: Vec<Point>)
    requires
        is_standard(quarters@),
        sq < QUARTER_COUNT,
    ensures
        r@ == orbit_polyline(points@, start, sq as int, lq as int),
        r@.len() <= MAX_POINTS + 1,
        r@.len() > 0 ==> r@[0] == r@[r@.len() - 1],
{
    let (rest, close) = trim_overshoot(points, start, sq, lq, quarters);
    let take_nth = stride(rest.len());
    let mut out = every_nth_element(rest, take_nth);
    if let Some(p) = close {
        out.push(p);
    }
    if out.len() > 0 {
        let first = out[0];
        out.push(first);
    }
    proof {
        lemma_polyline_closed_and_bounded(points@, start, sq as int, lq as int);
    }
    out
}

/// The polyline of a revolution is closed, its first point equal to its
/// last, and has at most `MAX_POINTS + 1` points.
pub proof fn lemma_polyline_closed_and_bounded(ps: Seq<Point>, start: Point, sq: int, lq: int)
    ensures
        orbit_polyline(ps, start, sq, lq).len() <= MAX_POINTS + 1,
        orbit_polyline(ps, start, sq, lq).len() > 0 ==> orbit_polyline(ps, start, sq, lq)[0]
            == orbit_polyline(ps, start, sq, lq)[orbit_polyline(ps, start, sq, lq).len() - 1],
{
    let t = trimmed(ps, start, sq, lq);
    let m = t.len() as int;
    let s = stride_for(m);
    let thinned = every_nth(t, s);
    if m > 0 {
        let k = KEPT_POSITIONS as int;
        assert(s >= 1);
        assert(m <= k * s) by {
            vstd::arithmetic::div_mod::lemma_fundamental_div_mod(m + k - 1, k);
        }
        let q = (m - 1) / s;
        let r = (m - 1) % s;
        assert(m - 1 == q * s + r && 0 <= r < s) by {
            vstd::arithmetic::div_mod::lemma_fundamental_div_mod(m - 1, s);
        }
        assert(q < k) by (nonlinear_arith)
            requires
                m - 1 == q * s + r,
                0 <= r,
                m <= k * s,
                s > 0,
        {
            if q >= k {
                assert(q * s >= k * s);
            }
        }
        assert(thinned.len() == q + 1);
    }
}

} // verus!
