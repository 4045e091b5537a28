use geotag::photo::{photo_passes_filter, plan_updates, PhotoRecord};
use geotag::track::{Segment, TrackPoint};

fn pt(sec: i64, lon: f64, lat: f64) -> TrackPoint {
    TrackPoint { time_ms: sec * 1000, lon_bits: lon.to_bits(), lat_bits: lat.to_bits() }
}

fn photo(id: &str, owner: &str, sec: i64) -> PhotoRecord {
    PhotoRecord {
        id: id.to_string(),
        owner_id: owner.to_string(),
        capture_ms: sec * 1000,
        lat_bits: None,
        lon_bits: None,
    }
}

fn pool() -> Vec<Segment> {
    vec![Segment::from_points(vec![pt(0, 0.0, 0.0), pt(10, 10.0, 10.0), pt(20, 20.0, 20.0)])]
}

#[test]
fn filter_keeps_untagged_photo() {
    assert!(photo_passes_filter(&photo("a", "alice", 5), &None));
    assert!(photo_passes_filter(&photo("a", "alice", 5), &Some("alice".to_string())));
}

#[test]
fn filter_rejects_other_owner() {
    assert!(!photo_passes_filter(&photo("a", "bob", 5), &Some("alice".to_string())));
}

#[test]
fn filter_rejects_any_existing_coordinate() {
    let mut p = photo("a", "alice", 5);
    p.lat_bits = Some((47.0f64).to_bits());
    assert!(!photo_passes_filter(&p, &None));
    let mut q = photo("b", "alice", 5);
    q.lon_bits = Some((8.0f64).to_bits());
    assert!(!photo_passes_filter(&q, &None));
}

#[test]
fn plan_covers_kept_photos_only() {
    let segments = pool();
    let mut tagged = photo("tagged", "alice", 5);
    tagged.lat_bits = Some((1.0f64).to_bits());
    tagged.lon_bits = Some((1.0f64).to_bits());
    let photos = vec![
        photo("in-range", "alice", 5),
        photo("out-of-range", "alice", 99),
        tagged,
        photo("other-owner", "bob", 5),
    ];
    let plan = plan_updates(&photos, &Some("alice".to_string()), &segments);
    assert_eq!(plan.len(), 1);
    assert_eq!(plan[0].photo.id, "in-range");
    assert_eq!(plan[0].interp.a, pt(0, 0.0, 0.0));
    assert_eq!(plan[0].interp.b, pt(10, 10.0, 10.0));
    assert_eq!(plan[0].interp.capture_dt, 5);
    assert_eq!(plan[0].interp.points_dt, 10);
}

#[test]
fn plan_keeps_fetch_order() {
    let segments = pool();
    let photos = vec![photo("later", "alice", 15), photo("earlier", "alice", 5)];
    let plan = plan_updates(&photos, &None, &segments);
    assert_eq!(plan.len(), 2);
    assert_eq!(plan[0].photo.id, "later");
    assert_eq!(plan[1].photo.id, "earlier");
}

#[test]
fn dry_run_repeats_identically() {
    // no state survives a pass: planning the same inputs twice yields the
    // same updates, so a repeated dry run prints the same lines
    let segments = pool();
    let photos = vec![photo("a", "alice", 5), photo("b", "bob", 12), photo("c", "carol", 50)];
    let first = plan_updates(&photos, &None, &segments);
    let second = plan_updates(&photos, &None, &segments);
    assert_eq!(first, second);
    assert_eq!(first.len(), 2);
}
