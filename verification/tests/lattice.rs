use cryotherm::domain::{Lattice, Point, Shape};

#[test]
fn new_is_zeroed_and_solid() {
    let l = Lattice::<f64>::new(Shape::new(2, 3, 4));
    assert_eq!(l.shape(), Shape::new(2, 3, 4));
    assert_eq!(l.data().len(), 24);
    assert!(l.data().iter().all(|&v| v == 0.0));
    for z in 0..4 {
        for y in 0..3 {
            for x in 0..2 {
                assert_eq!(l.point(x, y, z), Point::Solid);
            }
        }
    }
}

#[test]
fn idx_matches_row_major_layout() {
    let l = Lattice::<f64>::new(Shape::new(3, 4, 5));
    assert_eq!(l.idx(0, 0, 0), 0);
    assert_eq!(l.idx(1, 0, 0), 1);
    assert_eq!(l.idx(0, 1, 0), 3);
    assert_eq!(l.idx(0, 0, 1), 12);
    assert_eq!(l.idx(2, 3, 4), 2 + 3 * 3 + 4 * 12);
}

#[test]
fn set_and_value_round_trip() {
    let mut l = Lattice::new(Shape::cube(3));
    l.set(1, 2, 0, 42.0);
    assert_eq!(l.value(1, 2, 0), 42.0);
    assert_eq!(l.value(0, 0, 0), 0.0);
}

#[test]
fn set_all_fills_every_point() {
    let mut l = Lattice::new(Shape::new(2, 3, 4));
    l.set_all(7.5);
    assert!(l.data().iter().all(|&v| v == 7.5));
}

#[test]
fn set_from_matches_coordinate_formula() {
    let mut l = Lattice::new(Shape::new(3, 4, 2));
    l.set_from(|x, y, z| (x + 10 * y + 100 * z) as f64);
    for z in 0..2 {
        for y in 0..4 {
            for x in 0..3 {
                let expected = (x + 10 * y + 100 * z) as f64;
                assert_eq!(l.value(x, y, z), expected);
            }
        }
    }
}

#[test]
fn void_and_fill_toggle_point_state() {
    let mut l = Lattice::<f64>::new(Shape::cube(2));
    assert_eq!(l.point(1, 1, 1), Point::Solid);
    l.void(1, 1, 1);
    assert_eq!(l.point(1, 1, 1), Point::Void);
    l.fill(1, 1, 1);
    assert_eq!(l.point(1, 1, 1), Point::Solid);
}

#[test]
fn split_returns_disjoint_views() {
    let mut l = Lattice::new(Shape::cube(2));
    l.set(0, 0, 0, 1.0);

    let (data, points) = l.split();
    assert_eq!(data[0], 1.0);
    assert_eq!(points[0], Point::Solid);
}

#[test]
fn set_leaves_other_points_unchanged() {
    let mut l = Lattice::new(Shape::new(2, 2, 2));
    l.set_from(|x, y, z| (x + 2 * y + 4 * z) as i64);
    l.set(1, 0, 1, -1);
    for i in 0..8 {
        let expected = if i == 5 { -1 } else { i as i64 };
        assert_eq!(l.data()[i], expected);
    }
}

#[test]
fn void_leaves_field_and_other_points_unchanged() {
    let mut l = Lattice::new(Shape::new(3, 1, 1));
    l.set(1, 0, 0, 4u32);
    l.void(0, 0, 0);
    assert_eq!(l.point(0, 0, 0), Point::Void);
    assert_eq!(l.point(1, 0, 0), Point::Solid);
    assert_eq!(l.point(2, 0, 0), Point::Solid);
    assert_eq!(l.data(), &[0, 4, 0]);
}

#[test]
fn split_writes_reach_the_field() {
    let mut l = Lattice::new(Shape::new(2, 1, 1));
    {
        let (data, _points) = l.split();
        data[1] = 9u8;
    }
    assert_eq!(l.value(1, 0, 0), 9);
    assert_eq!(l.value(0, 0, 0), 0);
}
