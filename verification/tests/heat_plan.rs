use cryotherm::domain::{Axis, Lattice, Point, Shape};
use cryotherm::math::tridiagonal::check_request;
use cryotherm::solvers::heat::{line_segments, sweep_segments, Segment};

const S: Point = Point::Solid;
const V: Point = Point::Void;

fn seg(base: usize, start: usize, len: usize, stride: usize) -> Segment {
    Segment { base, start, len, stride }
}

#[test]
fn line_splits_at_voids() {
    let points = [S, S, V, S, V, V, S, S, S];
    assert_eq!(
        line_segments(&points, 0, 9, 1),
        vec![seg(0, 0, 2, 1), seg(0, 3, 1, 1), seg(0, 6, 3, 1)]
    );
}

#[test]
fn line_of_voids_has_no_segment() {
    let points = [Point::Void; 4];
    assert_eq!(line_segments(&points, 0, 4, 1), vec![]);
}

#[test]
fn line_follows_its_stride() {
    // Positions 1, 4, 7, 10 form the line.
    let points = [V, S, V, V, V, V, V, S, V, V, S, V];
    assert_eq!(line_segments(&points, 1, 4, 3), vec![seg(1, 0, 1, 3), seg(1, 2, 2, 3)]);
}

#[test]
fn segment_positions_follow_the_line() {
    let s = seg(2, 3, 2, 4);
    assert_eq!(s.position(0), 14);
    assert_eq!(s.position(1), 18);
}

#[test]
fn single_solid_point_plans_one_segment() {
    let mut l = Lattice::<f64>::new(Shape::new(3, 1, 1));
    l.void(0, 0, 0);
    l.void(2, 0, 0);
    let shape = l.shape();
    let (_, points) = l.split();
    let plan = sweep_segments(shape, points, Axis::X);
    assert_eq!(plan, vec![vec![seg(0, 1, 1, 1)]]);
    let plan_y = sweep_segments(shape, points, Axis::Y);
    assert_eq!(plan_y, vec![vec![], vec![seg(1, 0, 1, 3)], vec![]]);
}

#[test]
fn sweep_lines_come_in_order() {
    let mut l = Lattice::<f64>::new(Shape::new(2, 2, 2));
    let shape = l.shape();
    let (_, points) = l.split();
    // Along Y the lines run with X slowest and Z fastest.
    let plan = sweep_segments(shape, points, Axis::Y);
    assert_eq!(
        plan,
        vec![
            vec![seg(0, 0, 2, 2)],
            vec![seg(4, 0, 2, 2)],
            vec![seg(1, 0, 2, 2)],
            vec![seg(5, 0, 2, 2)],
        ]
    );
    let plan_z = sweep_segments(shape, points, Axis::Z);
    assert_eq!(
        plan_z,
        vec![
            vec![seg(0, 0, 2, 4)],
            vec![seg(1, 0, 2, 4)],
            vec![seg(2, 0, 2, 4)],
            vec![seg(3, 0, 2, 4)],
        ]
    );
}

#[test]
fn every_solid_point_is_touched_once_per_sweep() {
    let mut l = Lattice::<f64>::new(Shape::new(4, 3, 2));
    l.void(1, 0, 0);
    l.void(2, 2, 1);
    l.void(0, 1, 1);
    let shape = l.shape();
    let (_, points) = l.split();
    for axis in Axis::ALL {
        let mut touched = vec![0u32; shape.len()];
        for line in sweep_segments(shape, points, axis) {
            for s in line {
                for k in 0..s.len {
                    touched[s.position(k)] += 1;
                }
            }
        }
        for i in 0..shape.len() {
            let expected = if points[i] == Point::Solid { 1 } else { 0 };
            assert_eq!(touched[i], expected);
        }
    }
}

#[test]
fn planned_segments_fit_a_workspace_for_the_largest_axis() {
    let mut l = Lattice::<f64>::new(Shape::new(5, 2, 3));
    l.void(2, 1, 1);
    let shape = l.shape();
    let (_, points) = l.split();
    for axis in Axis::ALL {
        for line in sweep_segments(shape, points, axis) {
            for s in line {
                assert_eq!(check_request(s.len, shape.max_axis()), Ok(s.len - 1));
            }
        }
    }
}
