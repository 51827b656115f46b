use geo_types::coord::{Coord, Line, Point, Triangle};
use geo_types::line_string::LineString;

fn path(coords: &[(i64, i64)]) -> LineString {
    let pairs: Vec<(i64, i64)> = coords.to_vec();
    LineString::from_pairs(&pairs)
}

#[test]
fn three_coord_scenario() {
    let ls = path(&[(0, 0), (5, 0), (7, 9)]);
    assert_eq!(ls.num_coords(), 3);
    assert!(!ls.is_closed());

    let mut lines = ls.lines();
    assert_eq!(lines.len(), 2);
    assert_eq!(
        lines.next(),
        Some(Line::new(Coord::new(0, 0), Coord::new(5, 0)))
    );
    assert_eq!(
        lines.next(),
        Some(Line::new(Coord::new(5, 0), Coord::new(7, 9)))
    );
    assert_eq!(lines.next(), None);
    assert_eq!(lines.next(), None);

    let mut tris = ls.triangles();
    assert_eq!(tris.len(), 1);
    assert_eq!(
        tris.next(),
        Some(Triangle(Coord::new(0, 0), Coord::new(5, 0), Coord::new(7, 9)))
    );
    assert_eq!(tris.next(), None);
}

#[test]
fn close_appends_first_and_is_idempotent() {
    let mut ls = path(&[(0, 0), (5, 0), (7, 9)]);
    ls.close();
    assert_eq!(ls.num_coords(), 4);
    assert_eq!(ls.coord_at(0), Coord::new(0, 0));
    assert_eq!(ls.coord_at(1), Coord::new(5, 0));
    assert_eq!(ls.coord_at(2), Coord::new(7, 9));
    assert_eq!(ls.coord_at(3), Coord::new(0, 0));
    assert!(ls.is_closed());

    let before: Vec<Coord> = vec![
        ls.coord_at(0),
        ls.coord_at(1),
        ls.coord_at(2),
        ls.coord_at(3),
    ];
    ls.close();
    assert_eq!(ls.num_coords(), 4);
    let after: Vec<Coord> = vec![
        ls.coord_at(0),
        ls.coord_at(1),
        ls.coord_at(2),
        ls.coord_at(3),
    ];
    assert_eq!(before, after);
}

#[test]
fn closed_without_calling_close() {
    let ls = path(&[(0, 0), (5, 0), (0, 0)]);
    assert!(ls.is_closed());
}

#[test]
fn single_coord_is_closed() {
    let ls = path(&[(3, 4)]);
    assert_eq!(ls.num_coords(), 1);
    assert!(ls.is_closed());
}

#[test]
fn empty_path_views() {
    let mut ls = path(&[]);
    assert_eq!(ls.num_coords(), 0);
    assert!(ls.is_closed());
    let mut lines = ls.lines();
    assert_eq!(lines.len(), 0);
    assert_eq!(lines.next(), None);
    let mut tris = ls.triangles();
    assert_eq!(tris.len(), 0);
    assert_eq!(tris.next(), None);
    let mut pts = ls.points_iter();
    assert_eq!(pts.len(), 0);
    assert_eq!(pts.next(), None);
    ls.close();
    assert_eq!(ls.num_coords(), 0);
}

#[test]
fn two_coord_path_has_no_triangles() {
    let ls = path(&[(0, 0), (10, 0)]);
    let mut lines = ls.lines();
    assert_eq!(lines.len(), 1);
    assert_eq!(
        lines.next(),
        Some(Line::new(Coord::new(0, 0), Coord::new(10, 0)))
    );
    assert_eq!(lines.next(), None);
    let mut tris = ls.triangles();
    assert_eq!(tris.len(), 0);
    assert_eq!(tris.next(), None);
}

#[test]
fn round_trip_from_pairs() {
    let pairs: Vec<(i64, i64)> = vec![(1, 2), (3, 4), (5, 6), (3, 4)];
    let ls = LineString::from_pairs(&pairs);
    assert_eq!(ls.num_coords(), pairs.len());
    for (i, &(x, y)) in pairs.iter().enumerate() {
        let c = ls.coord_at(i);
        assert_eq!((c.x, c.y), (x, y));
    }
}

#[test]
fn points_iter_forward_and_backward() {
    let ls = path(&[(0, 0), (5, 0), (7, 9)]);
    let mut pts = ls.points_iter();
    assert_eq!(pts.len(), 3);
    assert_eq!(pts.next(), Some(Point::new(0, 0)));
    assert_eq!(pts.next_back(), Some(Point::new(7, 9)));
    assert_eq!(pts.len(), 1);
    assert_eq!(pts.next(), Some(Point::new(5, 0)));
    assert_eq!(pts.next(), None);
    assert_eq!(pts.next_back(), None);
}

#[test]
fn into_points_preserves_order() {
    let ls = path(&[(0, 0), (5, 0), (7, 9)]);
    let pts = ls.into_points();
    assert_eq!(
        pts,
        vec![Point::new(0, 0), Point::new(5, 0), Point::new(7, 9)]
    );
}

#[test]
fn indexed_read_and_write() {
    let mut ls = path(&[(0, 0), (5, 0), (7, 9)]);
    ls.set_coord(1, Coord::new(6, 1));
    assert_eq!(ls.coord_at(0), Coord::new(0, 0));
    assert_eq!(ls.coord_at(1), Coord::new(6, 1));
    assert_eq!(ls.coord_at(2), Coord::new(7, 9));
    assert_eq!(ls.num_coords(), 3);
}

#[test]
fn push_extends_the_walk() {
    let mut ls = path(&[(0, 0)]);
    ls.push(Coord::new(2, 3));
    assert_eq!(ls.num_coords(), 2);
    assert_eq!(ls.coord_at(1), Coord::new(2, 3));
    assert!(!ls.is_closed());
}
