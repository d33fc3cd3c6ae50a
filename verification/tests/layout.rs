use cryotherm::domain::{Axis, Shape};

#[test]
fn axis_all_order() {
    assert_eq!(Axis::ALL, [Axis::X, Axis::Y, Axis::Z]);
}

#[test]
fn axis_orthogonal() {
    assert_eq!(Axis::X.orthogonal(), [Axis::Y, Axis::Z]);
    assert_eq!(Axis::Y.orthogonal(), [Axis::Z, Axis::X]);
    assert_eq!(Axis::Z.orthogonal(), [Axis::X, Axis::Y]);
}

#[test]
fn shape_new_and_len() {
    let s = Shape::new(2, 3, 4);
    assert_eq!(s.len(), 24);
    assert_eq!((s.nx, s.ny, s.nz), (2, 3, 4));
}

#[test]
fn shape_cube() {
    let s = Shape::cube(5);
    assert_eq!(s.len(), 125);
    assert_eq!((s.nx, s.ny, s.nz), (5, 5, 5));
}

#[test]
fn shape_max_axis() {
    assert_eq!(Shape::new(3, 5, 4).max_axis(), 5);
    assert_eq!(Shape::new(7, 2, 4).max_axis(), 7);
    assert_eq!(Shape::new(2, 3, 9).max_axis(), 9);
    assert_eq!(Shape::cube(5).max_axis(), 5);
}

#[test]
fn shape_dim() {
    let s = Shape::new(2, 3, 4);
    assert_eq!(s.dim(Axis::X), 2);
    assert_eq!(s.dim(Axis::Y), 3);
    assert_eq!(s.dim(Axis::Z), 4);
}

#[test]
fn shape_stride() {
    let s = Shape::new(2, 3, 4);
    assert_eq!(s.stride(Axis::X), 1);
    assert_eq!(s.stride(Axis::Y), 2);
    assert_eq!(s.stride(Axis::Z), 6);
}

#[test]
fn shape_stride_matches_row_major_layout() {
    let s = Shape::new(3, 4, 5);
    let idx = 1 * s.stride(Axis::X) + 2 * s.stride(Axis::Y) + 3 * s.stride(Axis::Z);
    assert_eq!(idx, 1 + 2 * 3 + 3 * 12);
    assert!(idx < s.len());
}

#[test]
fn shape_idx() {
    let s = Shape::new(3, 4, 5);
    let (x, y, z) = (1, 0, 2);
    let idx = s.idx(x, y, z);
    assert_eq!(idx, 25);
}

#[test]
fn shape_idx_visits_every_flat_position_once() {
    let s = Shape::new(3, 4, 2);
    let mut seen = vec![false; s.len()];
    for z in 0..2 {
        for y in 0..4 {
            for x in 0..3 {
                let i = s.idx(x, y, z);
                assert!(i < s.len());
                assert!(!seen[i]);
                seen[i] = true;
            }
        }
    }
    assert!(seen.iter().all(|&b| b));
}

#[test]
fn shape_len_is_product_along_any_axis() {
    let s = Shape::new(2, 3, 4);
    for axis in Axis::ALL {
        let [b, c] = axis.orthogonal();
        assert_eq!(s.dim(axis) * s.dim(b) * s.dim(c), s.len());
        assert!(axis != b && axis != c && b != c);
    }
}

#[test]
fn shape_strides_nest() {
    let s = Shape::new(3, 4, 5);
    assert_eq!(s.stride(Axis::Y), s.dim(Axis::X) * s.stride(Axis::X));
    assert_eq!(s.stride(Axis::Z), s.dim(Axis::Y) * s.stride(Axis::Y));
    assert_eq!(s.len(), s.dim(Axis::Z) * s.stride(Axis::Z));
}

#[test]
fn shape_with_zero_extent_is_empty() {
    let s = Shape::new(0, 3, 4);
    assert_eq!(s.len(), 0);
    assert_eq!(s.max_axis(), 4);
}
