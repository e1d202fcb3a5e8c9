use vors::inverse_depth::InverseDepth;
use vors::matrix::Matrix;
use vors::track::reference_frame;

type Obs = InverseDepth<f32>;

fn first_strategy(valids: Vec<(f32, f32)>) -> Obs {
    match valids.first() {
        Some(&(d, v)) => InverseDepth::WithVariance(d, v),
        None => InverseDepth::Unknown,
    }
}

#[test]
fn reference_frame_levels_line_up() {
    // One bright column inside an otherwise dark image: the 2x2 blocks
    // covering columns 4 and 5 see a strong horizontal gradient.
    let img = Matrix::from_row_major(
        8,
        8,
        (0..64u32)
            .map(|k| if k % 8 == 5 { 200u8 } else { 0 })
            .collect(),
    )
    .unwrap();
    let idepth0 = Matrix::from_row_major(
        8,
        8,
        vec![Obs::WithVariance(0.5, 0.01); 64],
    )
    .unwrap();
    let snap = reference_frame(3, 7, img, idepth0, first_strategy);

    assert_eq!(snap.img_pyramid.len(), 3);
    assert_eq!(snap.gradients.len(), 2);
    assert_eq!(snap.masks.len(), 2);
    assert_eq!(snap.idepth_pyramid.len(), 3);
    for k in 0..2 {
        let expected = (
            snap.img_pyramid[k + 1].num_rows(),
            snap.img_pyramid[k + 1].num_cols(),
        );
        assert_eq!((snap.gradients[k].0.num_rows(), snap.gradients[k].0.num_cols()), expected);
        assert_eq!((snap.masks[k].num_rows(), snap.masks[k].num_cols()), expected);
    }
    for k in 0..3 {
        assert_eq!(snap.idepth_pyramid[k].num_rows(), snap.img_pyramid[k].num_rows());
        assert_eq!(snap.idepth_pyramid[k].num_cols(), snap.img_pyramid[k].num_cols());
    }

    // The edge blocks carry gradient and must be candidates; flat blocks
    // must not.
    assert!(snap.masks[0].get(0, 2));
    assert!(!snap.masks[0].get(0, 0));
    assert!(!snap.masks[0].get(0, 1));
    assert!(!snap.masks[0].get(0, 3));

    // The fused estimate of agreeing children is the children's value.
    assert_eq!(snap.idepth_pyramid[2].get(0, 0), Obs::WithVariance(0.5, 0.01));
}
