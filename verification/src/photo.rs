//! Photo records fetched from the media server, the post-fetch filter, and
//! the plan of updates one run computes: for each photo kept by the filter
//! and covered by a segment, the interpolation that the write-back call will
//! turn into a coordinate.

use vstd::prelude::*;

use crate::interp::{interp_spec, interpolate, pool_view, Interpolation};
use crate::track::Segment;
use crate::track::TrackPoint;

verus! {

/// One photo as reported by the server: its id, its owner's id, the capture
/// time in whole milliseconds since the Unix epoch, and the bit patterns of
/// whatever coordinates its metadata already carries.
#[derive(Clone, Debug, PartialEq, Eq)]
pub struct PhotoRecord {
    pub id: String,
    pub owner_id: String,
    pub capture_ms: i64,
    pub lat_bits: Option<u64>,
    pub lon_bits: Option<u64>,
}

impl PhotoRecord {
    /// An explicit copy: a duplicate is equal to the original.
    pub fn duplicate(&self) -> (r: PhotoRecord)
        ensures
            r == *self,
    {
        PhotoRecord {
            id: self.id.clone(),
            owner_id: self.owner_id.clone(),
            capture_ms: self.capture_ms,
            lat_bits: self.lat_bits,
            lon_bits: self.lon_bits,
        }
    }
}

pub open spec fn owner_view(o: Option<String>) -> Option<Seq<char>> {
    match o {
        None => None,
        Some(s) => Some(s@),
    }
}

pub open spec fn owner_matches(p: PhotoRecord, owner: Option<Seq<char>>) -> bool {
    match owner {
        None => true,
        Some(o) => p.owner_id@ == o,
    }
}

/// The post-fetch filter: keep a photo exactly when the owner filter is
/// absent or matches its owner, and neither coordinate is present yet. A
/// photo with either coordinate present — even just one of the two — is
/// excluded and never updated.
pub open spec fn keep_spec(p: PhotoRecord, owner: Option<Seq<char>>) -> bool {
    owner_matches(p, owner) && p.lat_bits is None && p.lon_bits is None
}

pub fn photo_passes_filter(p: &PhotoRecord, owner: &Option<String>) -> (r: bool)
    ensures
        r == keep_spec(*p, owner_view(*owner)),
{
    let owner_ok = match owner {
        None => true,
        Some(o) => *o == p.owner_id,
    };
    owner_ok && p.lat_bits.is_none() && p.lon_bits.is_none()
}

/// One planned write-back: the photo and the interpolation computed for it.
#[derive(Clone, Debug, PartialEq, Eq)]
pub struct Update {
    pub photo: PhotoRecord,
    pub interp: Interpolation,
}

/// The plan a run computes, photo by photo in fetch order: each photo that
/// passes the filter and whose capture time some segment covers contributes
/// one update; every other photo is skipped, never an error.
pub open spec fn plan_spec(
    photos: Seq<PhotoRecord>,
    owner: Option<Seq<char>>,
    pool: Seq<Seq<TrackPoint>>,
) -> Seq<Update>
    decreases photos.len(),
{
    if photos.len() == 0 {
        Seq::empty()
    } else {
        let rest = plan_spec(photos.drop_last(), owner, pool);
        let p = photos.last();
        if keep_spec(p, owner) {
            match interp_spec(pool, p.capture_ms as int) {
                Some(ip) => rest.push(Update { photo: p, interp: ip }),
                None => rest,
            }
        } else {
            rest
        }
    }
}

/// Computes the whole run's plan. The write-back calls themselves, or the
/// dry-run log lines, follow the plan in order.
pub fn plan_updates(photos: &Vec<PhotoRecord>, owner: &Option<String>, segments: &Vec<Segment>) -> (r:
    Vec<Update>)
    ensures
        r@ == plan_spec(photos@, owner_view(*owner), pool_view(segments@)),
{
    let mut out: Vec<Update> = Vec::new();
    let mut i: usize = 0;
    while i < photos.len()
        invariant
            i <= photos@.len(),
            out@ == plan_spec(photos@.take(i as int), owner_view(*owner), pool_view(segments@)),
        decreases photos@.len() - i,
    {
        let p = &photos[i];
        proof {
            assert(photos@.take(i as int + 1).drop_last() =~= photos@.take(i as int));
            assert(photos@.take(i as int + 1).last() == photos@[i as int]);
        }
        if photo_passes_filter(p, owner) {
            match interpolate(p.capture_ms, segments) {
                Some(ip) => {
                    let u = Update { photo: p.duplicate(), interp: ip };
                    out.push(u);
                },
                None => {},
            }
        }
        i = i + 1;
    }
    proof {
        assert(photos@.take(photos@.len() as int) =~= photos@);
    }
    out
}

/// Idempotence of a run's decisions: the plan is a function of the fetched
/// photos, the owner filter and the segments alone — no state survives a
/// run — so two passes over the same inputs plan exactly the same updates,
/// and a repeated dry run reports the same coordinates both times.
pub proof fn lemma_plan_deterministic(
    r1: Seq<Update>,
    r2: Seq<Update>,
    photos: Seq<PhotoRecord>,
    owner: Option<Seq<char>>,
    pool: Seq<Seq<TrackPoint>>,
)
    requires
        r1 == plan_spec(photos, owner, pool),
        r2 == plan_spec(photos, owner, pool),
    ensures
        r1 == r2,
{
}

} // verus!
