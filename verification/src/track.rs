//! Track points and segments: timestamped GPS fixes, kept sorted by time.

use vstd::prelude::*;
use vstd::multiset::group_multiset_axioms;
use vstd::seq_lib::group_to_multiset_ensures;

use crate::timeparse::{convert_time, TimeError};

verus! {

/// A point as read at the boundary: an optional raw time value and the bit
/// patterns of the two coordinates. Points without a time value are dropped
/// while a segment is built.
pub struct RawPoint {
    pub time: Option<gpx::Time>,
    pub lon_bits: u64,
    pub lat_bits: u64,
}

/// A single GPS fix: a UTC timestamp in whole milliseconds since the Unix
/// epoch, and the longitude/latitude the receiver reported at that moment.
///
/// Coordinates travel through this library as the raw bit patterns of the
/// 64-bit values read at the boundary; the library selects and returns them
/// but never computes with them.
#[derive(Clone, Copy, PartialEq, Eq, Structural, Debug)]
pub struct TrackPoint {
    pub time_ms: i64,
    pub lon_bits: u64,
    pub lat_bits: u64,
}

/// The points stand in non-decreasing timestamp order.
pub open spec fn sorted_by_time(s: Seq<TrackPoint>) -> bool {
    forall|i: int, j: int| 0 <= i <= j < s.len() ==> s[i].time_ms <= s[j].time_ms
}

/// No two points share a timestamp.
pub open spec fn unique_times(s: Seq<TrackPoint>) -> bool {
    forall|i: int, j: int| 0 <= i < j < s.len() ==> s[i].time_ms != s[j].time_ms
}

/// One contiguous run of track points. Always sorted by timestamp: sorting
/// happens on construction and is an invariant of the type.
#[derive(Debug)]
pub struct Segment {
    points: Vec<TrackPoint>,
}

impl View for Segment {
    type V = Seq<TrackPoint>;

    closed spec fn view(&self) -> Seq<TrackPoint> {
        self.points@
    }
}

impl Segment {
    #[verifier::type_invariant]
    spec fn wf(self) -> bool {
        sorted_by_time(self.points@)
    }

    /// Builds a segment from points in any order; the points are sorted by
    /// timestamp. Ties may land in either order, so the contract speaks of
    /// the multiset of points.
    pub fn from_points(points: Vec<TrackPoint>) -> (s: Segment)
        ensures
            sorted_by_time(s@),
            s@.to_multiset() == points@.to_multiset(),
    {
        let mut points = points;
        sort_by_time(&mut points);
        Segment { points }
    }

    pub fn len(&self) -> (n: usize)
        ensures
            n == self@.len(),
    {
        self.points.len()
    }

    pub fn point_at(&self, i: usize) -> (p: TrackPoint)
        requires
            i < self@.len(),
        ensures
            p == self@[i as int],
    {
        self.points[i]
    }
}

/// Insertion sort on the timestamp, in place. Order of points with equal
/// timestamps is left open: only the multiset of points is promised.
fn sort_by_time(v: &mut Vec<TrackPoint>)
    ensures
        sorted_by_time(final(v)@),
        final(v)@.to_multiset() == old(v)@.to_multiset(),
{
    broadcast use group_to_multiset_ensures;

    let ghost orig = v@;
    let mut i: usize = 1;
    while i < v.len()
        invariant
            1 <= i,
            v@.len() == orig.len(),
            v@.to_multiset() == orig.to_multiset(),
            forall|p: int, q: int|
                0 <= p <= q < v@.len() && q < i ==> v@[p].time_ms <= v@[q].time_ms,
        decreases v@.len() - i,
    {
        let x = v[i];
        let mut j: usize = i;
        while j > 0 && v[j - 1].time_ms > x.time_ms
            invariant
                j <= i,
                i < v@.len(),
                x == v@[i as int],
                forall|k: int| j <= k < i ==> v@[k].time_ms > x.time_ms,
            decreases j,
        {
            j = j - 1;
        }
        let ghost before = v@;
        let y = v.remove(i);
        v.insert(j, y);
        proof {
            broadcast use group_multiset_axioms;
            broadcast use group_to_multiset_ensures;

            assert(v@ == before.remove(i as int).insert(j as int, y));
            assert(v@.to_multiset() == before.remove(i as int).to_multiset().insert(y));
            assert(before.remove(i as int).to_multiset() == before.to_multiset().remove(y));
            assert(before[i as int] == y);
            assert(before.contains(y));
            assert(before.to_multiset().count(y) > 0);
            assert(v@.to_multiset() =~= before.to_multiset());
            assert forall|p: int, q: int|
                0 <= p <= q < v@.len() && q < i + 1 implies v@[p].time_ms <= v@[q].time_ms by {
                assert(v@ == before.remove(i as int).insert(j as int, y));
            }
        }
        i = i + 1;
    }
    proof {
        if v@.len() > 0 {
            assert(sorted_by_time(v@));
        }
    }
}

/// The raw points that carry a time value, in order.
pub open spec fn kept(s: Seq<RawPoint>) -> Seq<RawPoint> {
    s.filter(|p: RawPoint| p.time is Some)
}

/// The coordinate pairs of a run of track points, in order.
pub open spec fn coords_of(s: Seq<TrackPoint>) -> Seq<(u64, u64)> {
    s.map_values(|p: TrackPoint| (p.lon_bits, p.lat_bits))
}

/// The coordinate pairs of a run of raw points, in order.
pub open spec fn raw_coords(s: Seq<RawPoint>) -> Seq<(u64, u64)> {
    s.map_values(|p: RawPoint| (p.lon_bits, p.lat_bits))
}

/// The coordinate pairs of the timestamped raw points, in order.
pub open spec fn kept_coords(s: Seq<RawPoint>) -> Seq<(u64, u64)> {
    raw_coords(kept(s))
}

/// A permutation of track points carries over to their coordinate pairs.
proof fn lemma_coords_multiset(s1: Seq<TrackPoint>, s2: Seq<TrackPoint>)
    requires
        s1.to_multiset() == s2.to_multiset(),
    ensures
        coords_of(s1).to_multiset() == coords_of(s2).to_multiset(),
    decreases s1.len(),
{
    broadcast use group_to_multiset_ensures;
    broadcast use group_multiset_axioms;

    if s1.len() == 0 {
        assert(s1.to_multiset().len() == s1.len());
        assert(s2.to_multiset().len() == s2.len());
        assert(s2.len() == 0);
        assert(coords_of(s1) =~= Seq::<(u64, u64)>::empty());
        assert(coords_of(s2) =~= Seq::<(u64, u64)>::empty());
    } else {
        let x = s1[0];
        assert(s1.contains(x));
        assert(s1.to_multiset().count(x) > 0);
        assert(s2.to_multiset().count(x) > 0);
        assert(s2.contains(x));
        let j = choose|j: int| 0 <= j < s2.len() && s2[j] == x;
        let s1r = s1.remove(0);
        let s2r = s2.remove(j);
        assert(s1r.to_multiset() == s1.to_multiset().remove(x));
        assert(s2r.to_multiset() == s2.to_multiset().remove(x));
        lemma_coords_multiset(s1r, s2r);
        let c = (x.lon_bits, x.lat_bits);
        assert(coords_of(s1).remove(0) =~= coords_of(s1r));
        assert(coords_of(s2).remove(j) =~= coords_of(s2r));
        assert(coords_of(s1)[0] == c);
        assert(coords_of(s2)[j] == c);
        assert(coords_of(s1).remove(0).to_multiset() == coords_of(s1).to_multiset().remove(c));
        assert(coords_of(s2).remove(j).to_multiset() == coords_of(s2).to_multiset().remove(c));
        assert(coords_of(s1).contains(c));
        assert(coords_of(s2).contains(c));
        assert(coords_of(s1).to_multiset().count(c) > 0);
        assert(coords_of(s2).to_multiset().count(c) > 0);
        assert forall|y: (u64, u64)|
            coords_of(s1).to_multiset().count(y) == #[trigger] coords_of(
                s2,
            ).to_multiset().count(y) by {
            if y == c {
                assert(coords_of(s1).to_multiset().remove(c).count(c) == coords_of(
                    s2,
                ).to_multiset().remove(c).count(c));
            } else {
                assert(coords_of(s1).to_multiset().remove(c).count(y) == coords_of(
                    s2,
                ).to_multiset().remove(c).count(y));
            }
        }
        assert(coords_of(s1).to_multiset() =~= coords_of(s2).to_multiset());
    }
}

/// With unique timestamps there is exactly one sorted arrangement: two sorted
/// runs of the same points are equal. So when no two points share a
/// timestamp, the order the points arrived in never shows in a sorted
/// segment, and no tie-breaking rule is needed for correctness.
pub proof fn lemma_sorted_unique_permutation(s1: Seq<TrackPoint>, s2: Seq<TrackPoint>)
    requires
        sorted_by_time(s1),
        sorted_by_time(s2),
        unique_times(s1),
        s1.to_multiset() == s2.to_multiset(),
    ensures
        s1 == s2,
    decreases s1.len(),
{
    broadcast use group_to_multiset_ensures;
    broadcast use group_multiset_axioms;

    if s1.len() == 0 {
        assert(s1.to_multiset().len() == s1.len());
        assert(s2.to_multiset().len() == s2.len());
        assert(s2.len() == 0);
        assert(s1 =~= s2);
    } else {
        assert(s1.to_multiset().len() == s1.len());
        assert(s2.to_multiset().len() == s2.len());
        assert(s2.len() == s1.len());
        let x = s1[0];
        assert(s1.contains(x));
        assert(s1.to_multiset().count(x) > 0);
        assert(s2.to_multiset().count(x) > 0);
        assert(s2.contains(x));
        let j = choose|j: int| 0 <= j < s2.len() && s2[j] == x;
        assert(s2.to_multiset().count(s2[0]) > 0);
        assert(s1.to_multiset().count(s2[0]) > 0);
        assert(s1.contains(s2[0]));
        let k = choose|k: int| 0 <= k < s1.len() && s1[k] == s2[0];
        // the two first points share a timestamp, so with unique timestamps
        // in s1 they are one and the same point
        assert(s2[0].time_ms <= s2[j].time_ms);
        assert(s1[0].time_ms <= s1[k].time_ms);
        assert(s1[k].time_ms <= s1[0].time_ms);
        if k != 0 {
            assert(s1[0].time_ms != s1[k].time_ms);
            assert(false);
        }
        assert(s2[0] == s1[0]);
        let s1r = s1.remove(0);
        let s2r = s2.remove(0);
        assert(s1r.to_multiset() == s1.to_multiset().remove(x));
        assert(s2r.to_multiset() == s2.to_multiset().remove(x));
        assert(sorted_by_time(s1r)) by {
            assert forall|p: int, q: int| 0 <= p <= q < s1r.len() implies s1r[p].time_ms
                <= s1r[q].time_ms by {
                assert(s1r[p] == s1[p + 1]);
                assert(s1r[q] == s1[q + 1]);
            }
        }
        assert(sorted_by_time(s2r)) by {
            assert forall|p: int, q: int| 0 <= p <= q < s2r.len() implies s2r[p].time_ms
                <= s2r[q].time_ms by {
                assert(s2r[p] == s2[p + 1]);
                assert(s2r[q] == s2[q + 1]);
            }
        }
        assert(unique_times(s1r)) by {
            assert forall|p: int, q: int| 0 <= p < q < s1r.len() implies s1r[p].time_ms
                != s1r[q].time_ms by {
                assert(s1r[p] == s1[p + 1]);
                assert(s1r[q] == s1[q + 1]);
            }
        }
        lemma_sorted_unique_permutation(s1r, s2r);
        assert forall|i: int| 0 <= i < s1.len() implies s1[i] == s2[i] by {
            if i > 0 {
                assert(s1r[i - 1] == s1[i]);
                assert(s2r[i - 1] == s2[i]);
            }
        }
        assert(s1 =~= s2);
    }
}

/// Builds one segment from the raw points of one source segment: points
/// without a time value are dropped, the rest have their times converted,
/// and the result is sorted by timestamp. A time value that cannot be
/// converted fails the whole segment — and with it the run.
///
/// The converted instants come from outside calls, so the contract pins what
/// does not depend on them: which coordinate pairs survive (exactly the
/// timestamped points'), how many points remain, and that a segment with
/// nothing to convert always builds.
pub fn build_segment(raw: &Vec<RawPoint>) -> (r: Result<Segment, TimeError>)
    ensures
        (match r {
            Ok(seg) => {
                &&& sorted_by_time(seg@)
                &&& coords_of(seg@).to_multiset() == kept_coords(raw@).to_multiset()
                &&& seg@.len() == kept(raw@).len()
            },
            Err(_) => true,
        }),
        (forall|i: int| 0 <= i < raw@.len() ==> !(raw@[i].time is Some)) ==> r is Ok,
{
    broadcast use group_to_multiset_ensures;

    let mut pts: Vec<TrackPoint> = Vec::new();
    let mut i: usize = 0;
    while i < raw.len()
        invariant
            i <= raw@.len(),
            coords_of(pts@) == kept_coords(raw@.take(i as int)),
            pts@.len() == kept(raw@.take(i as int)).len(),
        decreases raw@.len() - i,
    {
        let rp = &raw[i];
        let ghost tk = raw@.take(i as int);
        let ghost tk1 = raw@.take(i as int + 1);
        proof {
            reveal(Seq::filter);
            assert(tk1.drop_last() =~= tk);
            assert(tk1.last() == raw@[i as int]);
        }
        match &rp.time {
            Some(t) => {
                match convert_time(t) {
                    Err(e) => {
                        return Err(e);
                    },
                    Ok(ms) => {
                        let p = TrackPoint {
                            time_ms: ms,
                            lon_bits: rp.lon_bits,
                            lat_bits: rp.lat_bits,
                        };
                        let ghost pv = pts@;
                        pts.push(p);
                        proof {
                            reveal(Seq::filter);
                            let rawp = raw@[i as int];
                            let kc = kept(tk);
                            assert(kept(tk1) == kc.push(rawp));
                            assert(pts@ == pv.push(p));
                            assert forall|m: int| 0 <= m < pts@.len() implies coords_of(pts@)[m]
                                == kept_coords(tk1)[m] by {
                                assert(coords_of(pts@)[m] == (pts@[m].lon_bits, pts@[m].lat_bits));
                                assert(kept_coords(tk1)[m] == (
                                    kept(tk1)[m].lon_bits,
                                    kept(tk1)[m].lat_bits,
                                ));
                                if m < pv.len() {
                                    assert(pts@[m] == pv[m]);
                                    assert(kept(tk1)[m] == kc[m]);
                                    assert(coords_of(pv)[m] == (pv[m].lon_bits, pv[m].lat_bits));
                                    assert(kept_coords(tk)[m] == (kc[m].lon_bits, kc[m].lat_bits));
                                    assert(coords_of(pv)[m] == kept_coords(tk)[m]);
                                } else {
                                    assert(pts@[m] == p);
                                    assert(kept(tk1)[m] == rawp);
                                }
                            }
                            assert(coords_of(pts@).len() == kept_coords(tk1).len());
                            assert(coords_of(pts@) =~= kept_coords(tk1));
                        }
                    },
                }
            },
            None => {
                proof {
                    reveal(Seq::filter);
                    assert(kept(tk1) == kept(tk));
                    assert(coords_of(pts@) =~= kept_coords(tk1));
                }
            },
        }
        i = i + 1;
    }
    proof {
        assert(raw@.take(raw@.len() as int) =~= raw@);
    }
    let ghost converted = pts@;
    let seg = Segment::from_points(pts);
    proof {
        lemma_coords_multiset(seg@, converted);
        assert(seg@.len() == seg@.to_multiset().len());
        assert(converted.len() == converted.to_multiset().len());
    }
    Ok(seg)
}

} // verus!
