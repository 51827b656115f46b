use geo_types::coord::Coord;
use geo_types::distance::SquaredDistance;
use geo_types::line_string::LineString;

fn path(coords: &[(i64, i64)]) -> LineString {
    let pairs: Vec<(i64, i64)> = coords.to_vec();
    LineString::from_pairs(&pairs)
}

#[test]
fn envelope_of_three_coords() {
    let ls = path(&[(0, 0), (5, 0), (7, 9)]);
    let e = ls.envelope();
    assert_eq!(e.min, Coord::new(0, 0));
    assert_eq!(e.max, Coord::new(7, 9));
    assert!(e.contains(Coord::new(0, 0)));
    assert!(e.contains(Coord::new(5, 0)));
    assert!(e.contains(Coord::new(7, 9)));
    assert!(!e.contains(Coord::new(8, 0)));
}

#[test]
fn envelope_of_mixed_signs() {
    let ls = path(&[(-3, 7), (5, -2), (1, 1)]);
    let e = ls.envelope();
    assert_eq!(e.min, Coord::new(-3, -2));
    assert_eq!(e.max, Coord::new(5, 7));
}

#[test]
fn envelope_of_empty_path_spans_everything() {
    let ls = path(&[]);
    let e = ls.envelope();
    assert_eq!(e.min, Coord::new(i64::MIN, i64::MIN));
    assert_eq!(e.max, Coord::new(i64::MAX, i64::MAX));
    assert!(e.contains(Coord::new(12345, -9876)));
}

#[test]
fn envelope_of_single_coord_degenerates_to_it() {
    let ls = path(&[(4, -6)]);
    let e = ls.envelope();
    assert_eq!(e.min, Coord::new(4, -6));
    assert_eq!(e.max, Coord::new(4, -6));
}

#[test]
fn perpendicular_distance_is_squared() {
    let ls = path(&[(0, 0), (10, 0)]);
    let d = ls.distance_to(Coord::new(5, 5));
    assert!(!d.is_zero());
    assert!(d.equals_int(25));
    assert!(!d.equals_int(24));
    assert!(!d.equals_int(26));
}

#[test]
fn point_on_segment_gives_exact_zero() {
    let ls = path(&[(0, 0), (10, 0)]);
    let d = ls.distance_to(Coord::new(5, 0));
    assert!(d.is_zero());
    assert!(d.equals_int(0));
}

#[test]
fn endpoint_cases_use_nearest_endpoint() {
    let ls = path(&[(0, 0), (10, 0)]);
    let beyond = ls.distance_to(Coord::new(12, 0));
    assert!(beyond.equals_int(4));
    let before = ls.distance_to(Coord::new(-3, 4));
    assert!(before.equals_int(25));
}

#[test]
fn minimum_over_all_segments() {
    let ls = path(&[(0, 0), (10, 0), (10, 10)]);
    let d = ls.distance_to(Coord::new(12, 9));
    assert!(d.equals_int(4));
    let on_second = ls.distance_to(Coord::new(10, 7));
    assert!(on_second.is_zero());
}

#[test]
fn fractional_squared_distance_is_exact() {
    let ls = path(&[(0, 0), (1, 1)]);
    let d = ls.distance_to(Coord::new(1, 0));
    assert!(!d.is_zero());
    assert!(!d.equals_int(0));
    assert!(!d.equals_int(1));
    let half_low = SquaredDistance::from_int(0);
    let one = SquaredDistance::from_int(1);
    assert!(half_low.le(&d));
    assert!(d.le(&one));
    assert!(!one.le(&d));
}

#[test]
fn distance_ordering_matches_geometry() {
    let ls = path(&[(0, 0), (10, 0)]);
    let near = ls.distance_to(Coord::new(5, 1));
    let far = ls.distance_to(Coord::new(5, 5));
    assert!(near.le(&far));
    assert!(!far.le(&near));
    assert!(near.equals_int(1));
}

#[test]
fn closed_ring_distance() {
    let mut ls = path(&[(0, 0), (10, 0), (10, 10)]);
    ls.close();
    assert!(ls.is_closed());
    let d = ls.distance_to(Coord::new(5, 5));
    assert!(d.is_zero());
}
