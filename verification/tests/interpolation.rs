use geotag::interp::{interpolate, Interpolation};
use geotag::track::{Segment, TrackPoint};

fn pt(sec: i64, lon: f64, lat: f64) -> TrackPoint {
    TrackPoint { time_ms: sec * 1000, lon_bits: lon.to_bits(), lat_bits: lat.to_bits() }
}

fn seg(points: Vec<TrackPoint>) -> Segment {
    Segment::from_points(points)
}

/// The straight-line interpolation the consumer applies to a bracket.
fn lerp(ip: &Interpolation) -> (f64, f64) {
    let points_dt = ip.points_dt as f64;
    let capture_dt = ip.capture_dt as f64;
    let a_lon = f64::from_bits(ip.a.lon_bits);
    let b_lon = f64::from_bits(ip.b.lon_bits);
    let a_lat = f64::from_bits(ip.a.lat_bits);
    let b_lat = f64::from_bits(ip.b.lat_bits);
    let longitude = a_lon + ((b_lon - a_lon) * capture_dt / points_dt);
    let latitude = a_lat + ((b_lat - a_lat) * capture_dt / points_dt);
    (latitude, longitude)
}

fn three_point_pool() -> Vec<Segment> {
    vec![seg(vec![pt(0, 0.0, 0.0), pt(10, 10.0, 10.0), pt(20, 20.0, 20.0)])]
}

#[test]
fn interpolate_between_points() {
    let pool = three_point_pool();
    let ip = interpolate(5 * 1000, &pool).expect("capture time is covered");
    // the bracket surrounds the capture time: the last point at or before
    // it and the first point after it
    assert_eq!(ip.a, pt(0, 0.0, 0.0));
    assert_eq!(ip.b, pt(10, 10.0, 10.0));
    assert_eq!(ip.capture_dt, 5);
    assert_eq!(ip.points_dt, 10);
    assert_eq!(lerp(&ip), (5.0, 5.0));
}

#[test]
fn capture_at_last_point_exact() {
    let pool = three_point_pool();
    let ip = interpolate(20 * 1000, &pool).expect("capture time is covered");
    // duplicate-point boundary rule: both ends of the bracket are the final
    // point, and the interpolation returns its coordinates exactly
    assert_eq!(ip.a, pt(20, 20.0, 20.0));
    assert_eq!(ip.b, pt(20, 20.0, 20.0));
    assert_eq!(ip.capture_dt, 1);
    assert_eq!(ip.points_dt, 1);
    assert_eq!(lerp(&ip), (20.0, 20.0));
}

#[test]
fn capture_at_interior_point() {
    let pool = three_point_pool();
    let ip = interpolate(10 * 1000, &pool).expect("capture time is covered");
    // the capture time equals the bracket's first timestamp, so the
    // one-second floor on capture_dt biases the result slightly past that
    // point; the accepted approximation of the duration floor
    assert_eq!(ip.a, pt(10, 10.0, 10.0));
    assert_eq!(ip.b, pt(20, 20.0, 20.0));
    assert_eq!(ip.capture_dt, 1);
    assert_eq!(ip.points_dt, 10);
    assert_eq!(lerp(&ip), (11.0, 11.0));
}

#[test]
fn capture_at_first_point_biased() {
    let pool = three_point_pool();
    let ip = interpolate(0, &pool).expect("capture time is covered");
    // at the lower boundary the one-second floor on capture_dt biases the
    // result one tenth of the way to the next point; an accepted
    // approximation, not exactness
    assert_eq!(ip.a, pt(0, 0.0, 0.0));
    assert_eq!(ip.b, pt(10, 10.0, 10.0));
    assert_eq!(ip.capture_dt, 1);
    assert_eq!(ip.points_dt, 10);
    assert_eq!(lerp(&ip), (1.0, 1.0));
}

#[test]
fn capture_outside_all_segments_none() {
    let pool = three_point_pool();
    assert_eq!(interpolate(21 * 1000, &pool), None);
    assert_eq!(interpolate(-1000, &pool), None);
}

#[test]
fn empty_pool_none() {
    let pool: Vec<Segment> = vec![];
    assert_eq!(interpolate(0, &pool), None);
}

#[test]
fn empty_segment_never_covers() {
    let pool = vec![seg(vec![]), seg(vec![pt(0, 0.0, 0.0), pt(10, 10.0, 10.0)])];
    let ip = interpolate(5 * 1000, &pool).expect("second segment covers");
    assert_eq!(ip.a, pt(0, 0.0, 0.0));
    assert_eq!(ip.b, pt(10, 10.0, 10.0));
}

#[test]
fn segment_from_second_file_found() {
    // segments from every input file land in one pool; a capture time that
    // only a later file's segment covers is still matched
    let first_file = seg(vec![pt(0, 0.0, 0.0), pt(10, 1.0, 1.0)]);
    let second_file = seg(vec![pt(1000, 8.0, 47.0), pt(1010, 9.0, 48.0)]);
    let pool = vec![first_file, second_file];
    let ip = interpolate(1005 * 1000, &pool).expect("second file's segment covers");
    assert_eq!(ip.a, pt(1000, 8.0, 47.0));
    assert_eq!(ip.b, pt(1010, 9.0, 48.0));
    assert_eq!(lerp(&ip), (47.5, 8.5));
}

#[test]
fn overlapping_segments_first_wins() {
    let a = seg(vec![pt(0, 0.0, 0.0), pt(100, 1.0, 1.0)]);
    let b = seg(vec![pt(0, 5.0, 5.0), pt(100, 6.0, 6.0)]);
    let pool = vec![a, b];
    let ip = interpolate(50 * 1000, &pool).expect("both segments cover");
    assert_eq!(ip.a, pt(0, 0.0, 0.0));
    assert_eq!(ip.b, pt(100, 1.0, 1.0));
}

#[test]
fn sub_second_gap_floors_to_one() {
    // 500 ms between the bracketing points is less than a whole second, so
    // the divisor is floored to one
    let p0 = TrackPoint { time_ms: 0, lon_bits: (0.0f64).to_bits(), lat_bits: (0.0f64).to_bits() };
    let p1 = TrackPoint {
        time_ms: 500,
        lon_bits: (1.0f64).to_bits(),
        lat_bits: (1.0f64).to_bits(),
    };
    let pool = vec![seg(vec![p0, p1])];
    let ip = interpolate(0, &pool).expect("covered");
    assert_eq!(ip.a, p0);
    assert_eq!(ip.b, p1);
    assert_eq!(ip.points_dt, 1);
    assert_eq!(ip.capture_dt, 1);
}

#[test]
fn covers_time_matches_span() {
    let s = seg(vec![pt(10, 1.0, 1.0), pt(20, 2.0, 2.0)]);
    assert!(s.covers_time(10 * 1000));
    assert!(s.covers_time(15 * 1000));
    assert!(s.covers_time(20 * 1000));
    assert!(!s.covers_time(10 * 1000 - 1));
    assert!(!s.covers_time(20 * 1000 + 1));
    let empty = seg(vec![]);
    assert!(!empty.covers_time(0));
}

#[test]
fn unsorted_input_sorted_on_build() {
    let s = seg(vec![pt(20, 20.0, 20.0), pt(0, 0.0, 0.0), pt(10, 10.0, 10.0)]);
    assert_eq!(s.len(), 3);
    assert_eq!(s.point_at(0), pt(0, 0.0, 0.0));
    assert_eq!(s.point_at(1), pt(10, 10.0, 10.0));
    assert_eq!(s.point_at(2), pt(20, 20.0, 20.0));
}

#[test]
fn unique_times_any_order_same_segment() {
    // with unique timestamps the sorted arrangement is unique, so the
    // arrival order of the points never shows
    let one = seg(vec![pt(3, 3.0, 3.0), pt(1, 1.0, 1.0), pt(2, 2.0, 2.0)]);
    let two = seg(vec![pt(1, 1.0, 1.0), pt(2, 2.0, 2.0), pt(3, 3.0, 3.0)]);
    assert_eq!(one.len(), two.len());
    for i in 0..one.len() {
        assert_eq!(one.point_at(i), two.point_at(i));
    }
}
