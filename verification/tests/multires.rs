use vors::matrix::Matrix;
use vors::multires::{gradients_squared_norm, gradients_xy, halve, limited_sequence, mean_pyramid, sequence};

fn mat_u8(rows: usize, cols: usize, data: Vec<u8>) -> Matrix<u8> {
    Matrix::from_row_major(rows, cols, data).unwrap()
}

#[test]
fn halve_mean_of_even_matrix() {
    let m = mat_u8(2, 4, vec![0, 2, 4, 6, 8, 10, 12, 14]);
    let h = halve(&m, |a: u8, b: u8, c: u8, d: u8| {
        ((a as u16 + b as u16 + c as u16 + d as u16) / 4) as u8
    })
    .unwrap();
    assert_eq!(h.num_rows(), 1);
    assert_eq!(h.num_cols(), 2);
    // block (0,0): 0, 8, 2, 10 -> 5; block (0,1): 4, 12, 6, 14 -> 9
    assert_eq!(h.get(0, 0), 5);
    assert_eq!(h.get(0, 1), 9);
}

#[test]
fn halve_drops_trailing_odd_row() {
    // Shape (2n+1) x (2m) with n = 1, m = 1: result must be 1 x 1.
    let m = mat_u8(3, 2, vec![10, 20, 30, 40, 99, 99]);
    let h = halve(&m, |a: u8, b: u8, c: u8, d: u8| {
        ((a as u16 + b as u16 + c as u16 + d as u16) / 4) as u8
    })
    .unwrap();
    assert_eq!(h.num_rows(), 1);
    assert_eq!(h.num_cols(), 1);
    assert_eq!(h.get(0, 0), 25);
}

#[test]
fn halve_below_two_gives_none() {
    let row = mat_u8(1, 5, vec![1, 2, 3, 4, 5]);
    let col = mat_u8(5, 1, vec![1, 2, 3, 4, 5]);
    let f = |a: u8, _b: u8, _c: u8, _d: u8| a;
    assert!(halve(&row, f).is_none());
    assert!(halve(&col, f).is_none());
}

#[test]
fn halve_block_order_is_column_then_row() {
    let m = mat_u8(2, 2, vec![1, 2, 3, 4]);
    // a = (0,0), b = (1,0), c = (0,1), d = (1,1)
    let h = halve(&m, |a: u8, b: u8, c: u8, d: u8| {
        assert_eq!((a, b, c, d), (1, 3, 2, 4));
        a
    })
    .unwrap();
    assert_eq!(h.get(0, 0), 1);
}

#[test]
fn halve_works_on_float_blocks() {
    let m = Matrix::from_row_major(2, 2, vec![1.0f32, 2.0, 3.0, 4.0]).unwrap();
    let h = halve(&m, |a: f32, b: f32, c: f32, d: f32| (a + b + c + d) / 4.0).unwrap();
    assert_eq!(h.get(0, 0), 2.5);
}

#[test]
fn mean_pyramid_full_length() {
    // 16 x 16 supports 5 levels; ask for 3 and get exactly 3.
    let m = mat_u8(16, 16, vec![128; 256]);
    let pyr = mean_pyramid(3, m);
    assert_eq!(pyr.len(), 3);
    assert_eq!((pyr[0].num_rows(), pyr[0].num_cols()), (16, 16));
    assert_eq!((pyr[1].num_rows(), pyr[1].num_cols()), (8, 8));
    assert_eq!((pyr[2].num_rows(), pyr[2].num_cols()), (4, 4));
    assert_eq!(pyr[2].get(3, 3), 128);
}

#[test]
fn mean_pyramid_bottoms_out() {
    // 8 x 4 halves to 4 x 2, then 2 x 1, which cannot be halved again:
    // 3 levels even though 10 were requested.
    let m = mat_u8(8, 4, vec![7; 32]);
    let pyr = mean_pyramid(10, m);
    assert_eq!(pyr.len(), 3);
    assert_eq!((pyr[2].num_rows(), pyr[2].num_cols()), (2, 1));
}

#[test]
fn mean_pyramid_zero_levels_acts_as_one() {
    let m = mat_u8(4, 4, vec![1; 16]);
    assert_eq!(mean_pyramid(0, m).len(), 1);
}

#[test]
fn mean_pyramid_values() {
    let m = mat_u8(2, 2, vec![0, 1, 2, 255]);
    let pyr = mean_pyramid(2, m);
    assert_eq!(pyr.len(), 2);
    // (0 + 2 + 1 + 255) / 4 = 64 (rounded down)
    assert_eq!(pyr[1].get(0, 0), 64);
}

#[test]
fn limited_sequence_caps_length() {
    let m = mat_u8(16, 16, vec![0; 256]);
    let pyr = limited_sequence(
        2,
        m,
        |m: Matrix<u8>| m,
        |m: &Matrix<u8>| {
            halve(m, |a: u8, b: u8, c: u8, d: u8| {
                ((a as u16 + b as u16 + c as u16 + d as u16) / 4) as u8
            })
        },
    );
    assert_eq!(pyr.len(), 2);
}

#[test]
fn limited_sequence_zero_cap_keeps_first_level() {
    let m = mat_u8(4, 4, vec![9; 16]);
    let pyr = limited_sequence(
        0,
        m,
        |m: Matrix<u8>| m,
        |m: &Matrix<u8>| halve(m, |a: u8, _b: u8, _c: u8, _d: u8| a),
    );
    assert_eq!(pyr.len(), 1);
    assert_eq!(pyr[0].get(3, 3), 9);
}

#[test]
fn from_row_major_rejects_shape_mismatch() {
    assert!(Matrix::from_row_major(2, 3, vec![0u8; 5]).is_none());
    assert!(Matrix::from_row_major(2, 3, vec![0u8; 6]).is_some());
}

#[test]
fn sequence_runs_until_exhausted() {
    let m = mat_u8(16, 16, vec![0; 256]);
    let pyr = sequence(
        m,
        |m: Matrix<u8>| m,
        |m: &Matrix<u8>| {
            halve(m, |a: u8, b: u8, c: u8, d: u8| {
                ((a as u16 + b as u16 + c as u16 + d as u16) / 4) as u8
            })
        },
    );
    // 16 -> 8 -> 4 -> 2 -> 1: five levels.
    assert_eq!(pyr.len(), 5);
    assert_eq!((pyr[4].num_rows(), pyr[4].num_cols()), (1, 1));
}

#[test]
fn sequence_applies_init_transform() {
    let m = mat_u8(2, 2, vec![1, 2, 3, 4]);
    let pyr = sequence(
        m,
        |m: Matrix<u8>| {
            Matrix::from_row_major(
                m.num_rows(),
                m.num_cols(),
                m.data.iter().map(|&x| x * 10).collect(),
            )
            .unwrap()
        },
        |m: &Matrix<u8>| halve(m, |a: u8, _b: u8, _c: u8, _d: u8| a),
    );
    assert_eq!(pyr.len(), 2);
    assert_eq!(pyr[0].get(1, 1), 40);
    assert_eq!(pyr[1].get(0, 0), 10);
}

#[test]
fn gradient_pyramid_is_one_level_shorter() {
    let m = mat_u8(8, 8, vec![0; 64]);
    let pyr = mean_pyramid(3, m);
    let norms = gradients_squared_norm(&pyr);
    let xy = gradients_xy(&pyr);
    assert_eq!(norms.len(), 2);
    assert_eq!(xy.len(), 2);
    assert_eq!((norms[0].num_rows(), norms[0].num_cols()), (4, 4));
    assert_eq!((xy[1].0.num_rows(), xy[1].0.num_cols()), (2, 2));
}

#[test]
fn gradient_pyramid_values() {
    // A horizontal intensity ramp: x-gradient positive, y-gradient zero.
    let m = mat_u8(
        4,
        4,
        vec![0, 10, 20, 30, 0, 10, 20, 30, 0, 10, 20, 30, 0, 10, 20, 30],
    );
    let pyr = mean_pyramid(2, m);
    let xy = gradients_xy(&pyr);
    // block (0,0) of level 0: a=0, b=0, c=10, d=10 -> gx = 10, gy = 0.
    assert_eq!(xy[0].0.get(0, 0), 10);
    assert_eq!(xy[0].1.get(0, 0), 0);
    let norms = gradients_squared_norm(&pyr);
    // (10*10 + 0) / 2 = 50.
    assert_eq!(norms[0].get(0, 0), 50);
}
