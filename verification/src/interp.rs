//! The interpolator: given a capture time, pick the first segment whose time
//! span contains it, then the bracketing pair of points and the two elapsed
//! durations that weight the linear interpolation between them.

use vstd::prelude::*;

use crate::track::{sorted_by_time, Segment, TrackPoint};

verus! {

/// Whether a segment's time span contains `t`: the segment is non-empty and
/// `t` lies between its first and last timestamps, inclusive.
pub open spec fn covers(s: Seq<TrackPoint>, t: int) -> bool {
    s.len() > 0 && s[0].time_ms <= t && t <= s[s.len() - 1].time_ms
}

/// Elapsed whole seconds between two instants given in milliseconds, floored
/// at one: `max(1, trunc(diff_ms / 1000))`. The floor avoids a zero divisor
/// when the two bracketing points share a timestamp or when the capture time
/// is within a second of the bracket's first point; the slight bias this
/// causes in those edge cases is part of the algorithm. Truncation and
/// flooring agree here because any difference of at least one whole second
/// is handled by the first branch and everything smaller is floored to one.
pub open spec fn dt_secs(diff_ms: int) -> int {
    if diff_ms >= 1000 {
        diff_ms / 1000
    } else {
        1
    }
}

/// Number of leading points whose timestamp is at or before `t`; in a
/// sorted segment this is one past the index of the last point at or before
/// `t`, or zero if every point lies after `t`.
pub open spec fn first_after(s: Seq<TrackPoint>, t: int) -> int
    decreases s.len(),
{
    if s.len() == 0 {
        0
    } else if s[0].time_ms > t {
        0
    } else {
        1 + first_after(s.drop_first(), t)
    }
}

pub proof fn lemma_first_after(s: Seq<TrackPoint>, t: int)
    ensures
        0 <= first_after(s, t) <= s.len(),
        forall|k: int| 0 <= k < first_after(s, t) ==> s[k].time_ms <= t,
        first_after(s, t) < s.len() ==> s[first_after(s, t)].time_ms > t,
    decreases s.len(),
{
    if s.len() > 0 && s[0].time_ms <= t {
        lemma_first_after(s.drop_first(), t);
        assert forall|k: int| 0 <= k < first_after(s, t) implies s[k].time_ms <= t by {
            if k > 0 {
                assert(s.drop_first()[k - 1] == s[k]);
            }
        }
        if first_after(s, t) < s.len() {
            assert(s.drop_first()[first_after(s, t) - 1] == s[first_after(s, t)]);
        }
    }
}

/// Index of the first segment of the pool whose time span contains `t`, in
/// pool order, if any.
pub open spec fn first_covering(pool: Seq<Seq<TrackPoint>>, t: int) -> Option<int>
    decreases pool.len(),
{
    if pool.len() == 0 {
        None
    } else if covers(pool[0], t) {
        Some(0int)
    } else {
        match first_covering(pool.drop_first(), t) {
            None => None,
            Some(j) => Some(j + 1),
        }
    }
}

/// The pool's first covering segment is exactly the first, in pool order,
/// whose span contains `t`: every earlier segment fails to cover.
pub proof fn lemma_first_covering_is(pool: Seq<Seq<TrackPoint>>, t: int, i: int)
    requires
        0 <= i < pool.len(),
        covers(pool[i], t),
        forall|j: int| 0 <= j < i ==> !covers(pool[j], t),
    ensures
        first_covering(pool, t) == Some(i),
    decreases pool.len(),
{
    if i > 0 {
        lemma_first_covering_is(pool.drop_first(), t, i - 1);
        assert(pool.drop_first()[i - 1] == pool[i]);
    }
}

/// When no segment of the pool covers `t`, there is no first covering one.
pub proof fn lemma_first_covering_none(pool: Seq<Seq<TrackPoint>>, t: int)
    requires
        forall|j: int| 0 <= j < pool.len() ==> !covers(pool[j], t),
    ensures
        first_covering(pool, t) is None,
    decreases pool.len(),
{
    if pool.len() > 0 {
        lemma_first_covering_none(pool.drop_first(), t);
    }
}

/// The interpolation endpoints chosen for one photo, and the two elapsed
/// times, in whole seconds floored at one, that weight the straight-line
/// interpolation `a + (b - a) * capture_dt / points_dt` applied to each
/// coordinate axis.
#[derive(Clone, Copy, PartialEq, Eq, Structural, Debug)]
pub struct Interpolation {
    pub a: TrackPoint,
    pub b: TrackPoint,
    pub capture_dt: i64,
    pub points_dt: i64,
}

/// First point of the bracketing pair: the last point whose timestamp is at
/// or before the capture time, so that the pair surrounds the capture time.
/// Within a covered span such a point always exists; when the capture time
/// equals this point's own timestamp the one-second floor on `capture_dt`
/// biases the interpolation slightly (the accepted approximation at the
/// span's start).
pub open spec fn bracket_a(s: Seq<TrackPoint>, t: int) -> TrackPoint {
    let k = first_after(s, t);
    if k > 0 {
        s[k - 1]
    } else {
        s[0]
    }
}

/// Second point of the bracketing pair: the first point whose timestamp is
/// after the capture time; a duplicate of the final point stands in when the
/// capture time has reached the end of the span, so a pair exists whenever
/// the segment's span contains the capture time.
pub open spec fn bracket_b(s: Seq<TrackPoint>, t: int) -> TrackPoint {
    let k = first_after(s, t);
    if k < s.len() {
        s[k]
    } else {
        s[s.len() - 1]
    }
}

pub open spec fn bracket_of(s: Seq<TrackPoint>, t: int) -> Interpolation {
    let a = bracket_a(s, t);
    let b = bracket_b(s, t);
    Interpolation {
        a,
        b,
        capture_dt: dt_secs(t - a.time_ms) as i64,
        points_dt: dt_secs(b.time_ms - a.time_ms) as i64,
    }
}

/// The pair-availability invariant: whenever a segment's span contains the
/// capture time, at least one point lies at or before it, so both bracket
/// points exist and the bracket is well defined. This is why the lookup
/// never has to fail loudly after a covering segment was found: fewer than
/// two points after the duplicate-point adjustment is mathematically
/// impossible.
pub proof fn lemma_bracket_pair_available(s: Seq<TrackPoint>, t: int)
    requires
        covers(s, t),
    ensures
        1 <= first_after(s, t) <= s.len(),
{
    lemma_first_after(s, t);
    if first_after(s, t) == 0 {
        assert(s[0].time_ms > t);
        assert(false);
    }
}

/// A capture time at (or nominally past) the end of a segment's span gets
/// the final point as both ends of its bracket, and unit durations: the
/// interpolation `a + (b - a) * capture_dt / points_dt` then yields the
/// final point's coordinates exactly. This is the duplicate-point boundary
/// rule: every point lies at or before the capture time, the scan runs off
/// the end, and the appended duplicate of the final point supplies the
/// second element of the pair. No uniqueness of timestamps is needed: even
/// with ties at the end, the final point itself is the one returned.
pub proof fn lemma_capture_at_segment_end(s: Seq<TrackPoint>, t: int)
    requires
        sorted_by_time(s),
        s.len() > 0,
        t == s[s.len() - 1].time_ms,
    ensures
        bracket_of(s, t) == (Interpolation {
            a: s[s.len() - 1],
            b: s[s.len() - 1],
            capture_dt: 1,
            points_dt: 1,
        }),
{
    lemma_first_after(s, t);
    let k = first_after(s, t);
    if k < s.len() {
        // every timestamp is at most the final one, so none is after t
        assert(s[k].time_ms <= s[s.len() - 1].time_ms);
        assert(false);
    }
    assert(k == s.len());
    assert(bracket_a(s, t) == s[s.len() - 1]);
    assert(bracket_b(s, t) == s[s.len() - 1]);
    assert(dt_secs(0) == 1);
}

/// What interpolation, if any, a capture time gets from a pool of segments:
/// the bracket from the first segment whose span contains it.
pub open spec fn interp_spec(pool: Seq<Seq<TrackPoint>>, t: int) -> Option<Interpolation> {
    match first_covering(pool, t) {
        None => None,
        Some(i) => Some(bracket_of(pool[i], t)),
    }
}

/// The views of a pool of segments.
pub open spec fn pool_view(segments: Seq<Segment>) -> Seq<Seq<TrackPoint>> {
    segments.map_values(|s: Segment| s@)
}

/// `max(1, whole seconds of diff)`, computed without overflow for any pair of
/// `i64` instants.
fn secs_floored(diff: i128) -> (r: i64)
    requires
        diff <= 0xFFFF_FFFF_FFFF_FFFF,
    ensures
        r as int == dt_secs(diff as int),
{
    if diff >= 1000 {
        let q: u128 = (diff as u128) / 1000;
        proof {
            assert((diff as u128) as int == diff as int);
            assert(q < 0x8000_0000_0000_0000) by (nonlinear_arith)
                requires
                    q as int == (diff as u128) as int / 1000,
                    0 <= (diff as u128) as int <= 0xFFFF_FFFF_FFFF_FFFF,
            ;
        }
        q as i64
    } else {
        1
    }
}

impl Segment {
    /// Whether this segment is non-empty and its time span contains `t`.
    pub fn covers_time(&self, t: i64) -> (r: bool)
        ensures
            r == covers(self@, t as int),
    {
        let n = self.len();
        if n == 0 {
            false
        } else {
            let first = self.point_at(0);
            let last = self.point_at(n - 1);
            first.time_ms <= t && t <= last.time_ms
        }
    }
}

/// The core lookup: the bracket from the first segment, in pool order, whose
/// time span contains the capture time, or `None` when no segment's span
/// does — a photo outside every segment is skipped, never an error.
pub fn interpolate(capture_ms: i64, segments: &Vec<Segment>) -> (r: Option<Interpolation>)
    ensures
        r == interp_spec(pool_view(segments@), capture_ms as int),
        (r is None) <==> (forall|i: int|
            0 <= i < segments@.len() ==> !covers(#[trigger] segments@[i]@, capture_ms as int)),
{
    let ghost pool = pool_view(segments@);
    let ghost t: int = capture_ms as int;
    let mut i: usize = 0;
    while i < segments.len()
        invariant
            0 <= i <= segments@.len(),
            pool == pool_view(segments@),
            t == capture_ms as int,
            forall|j: int| 0 <= j < i ==> !covers(#[trigger] pool[j], t),
        decreases segments@.len() - i,
    {
        let seg = &segments[i];
        if seg.covers_time(capture_ms) {
            let r = Some(bracket_in(seg, capture_ms));
            proof {
                assert(pool[i as int] == segments@[i as int]@);
                lemma_first_covering_is(pool, t, i as int);
                assert(covers(segments@[i as int]@, t));
            }
            return r;
        }
        i = i + 1;
    }
    proof {
        assert forall|j: int| 0 <= j < segments@.len() implies !covers(
            #[trigger] segments@[j]@,
            t,
        ) by {
            assert(pool[j] == segments@[j]@);
        }
        lemma_first_covering_none(pool, t);
    }
    None
}

/// The bracketing pair and durations within one covering segment.
fn bracket_in(seg: &Segment, capture_ms: i64) -> (r: Interpolation)
    requires
        covers(seg@, capture_ms as int),
    ensures
        r == bracket_of(seg@, capture_ms as int),
{
    let ghost t: int = capture_ms as int;
    proof {
        lemma_first_after(seg@, t);
    }
    let n = seg.len();
    let mut k: usize = 0;
    while k < n && seg.point_at(k).time_ms <= capture_ms
        invariant
            0 <= k <= n,
            n == seg@.len(),
            t == capture_ms as int,
            covers(seg@, t),
            forall|q: int| 0 <= q < k ==> seg@[q].time_ms <= t,
        decreases n - k,
    {
        k = k + 1;
    }
    proof {
        // the span's first point is not after t, so the scan counted it
        if k == 0 {
            assert(seg@[0].time_ms > t);
            assert(false);
        }
        // k and the spec agree: each bounds the other
        let k0: int = first_after(seg@, t);
        if k0 < k {
            assert(seg@[k0].time_ms <= t);
            assert(false);
        }
        if (k as int) < k0 {
            assert(seg@[k as int].time_ms <= t);
            assert(false);
        }
    }
    let a = seg.point_at(k - 1);
    let b = if k < n {
        seg.point_at(k)
    } else {
        seg.point_at(n - 1)
    };
    let capture_dt = secs_floored((capture_ms as i128) - (a.time_ms as i128));
    let points_dt = secs_floored((b.time_ms as i128) - (a.time_ms as i128));
    Interpolation { a, b, capture_dt, points_dt }
}

} // verus!
