use vors::candidates::{select, select_at_level};
use vors::gradient::{bloc_squared_norm, bloc_x, bloc_y};
use vors::matrix::Matrix;

#[test]
fn bloc_gradients_exact_values() {
    // a = top-left, b = bottom-left, c = top-right, d = bottom-right.
    assert_eq!(bloc_x(0, 0, 10, 10), 10);
    assert_eq!(bloc_y(0, 10, 0, 10), 10);
    assert_eq!(bloc_x(10, 10, 0, 0), -10);
    assert_eq!(bloc_y(10, 0, 10, 0), -10);
    // Halving rounds toward zero on both signs.
    assert_eq!(bloc_x(0, 0, 3, 0), 1);
    assert_eq!(bloc_x(3, 0, 0, 0), -1);
    assert_eq!(bloc_squared_norm(0, 0, 10, 10), 50);
    // gx = (255 + 255 - 0 - 255) / 2 = 127, gy likewise: (127^2 + 127^2) / 2.
    assert_eq!(bloc_squared_norm(0, 255, 255, 255), 16129);
}

#[test]
fn bloc_squared_norm_max_fits() {
    assert_eq!(bloc_squared_norm(0, 0, 255, 255), (255 * 255) / 2);
    assert_eq!(bloc_x(0, 0, 255, 255), 255);
    assert_eq!(bloc_y(255, 0, 255, 0), -255);
}

#[test]
fn select_marks_strictly_above_threshold() {
    let g = Matrix::from_row_major(2, 2, vec![0u16, 7, 8, 100]).unwrap();
    let mask = select_at_level(7, &g);
    assert!(!mask.get(0, 0));
    assert!(!mask.get(0, 1)); // equal to the threshold is not a candidate
    assert!(mask.get(1, 0));
    assert!(mask.get(1, 1));
}

#[test]
fn select_covers_every_level() {
    let g0 = Matrix::from_row_major(1, 2, vec![0u16, 50]).unwrap();
    let g1 = Matrix::from_row_major(1, 1, vec![10u16]).unwrap();
    let masks = select(9, &vec![g0, g1]);
    assert_eq!(masks.len(), 2);
    assert!(!masks[0].get(0, 0));
    assert!(masks[0].get(0, 1));
    assert!(masks[1].get(0, 0));
}

#[test]
fn select_twice_gives_identical_masks() {
    let g = Matrix::from_row_major(2, 3, vec![1u16, 9, 3, 40, 0, 8]).unwrap();
    let m1 = select_at_level(7, &g);
    let m2 = select_at_level(7, &g);
    assert_eq!(m1.num_rows(), m2.num_rows());
    assert_eq!(m1.num_cols(), m2.num_cols());
    for i in 0..2 {
        for j in 0..3 {
            assert_eq!(m1.get(i, j), m2.get(i, j));
        }
    }
}
