use vors::inverse_depth::{fuse, fuse_pyramid, InverseDepth};
use vors::matrix::Matrix;

type Obs = InverseDepth<f32>;

fn mean_strategy(valids: Vec<(f32, f32)>) -> Obs {
    if valids.is_empty() {
        return InverseDepth::Unknown;
    }
    let n = valids.len() as f32;
    let mean: f32 = valids.iter().map(|(d, _)| d).sum::<f32>() / n;
    let var: f32 = valids.iter().map(|(_, v)| v).sum::<f32>() / (n * n);
    for (d, v) in valids.iter() {
        if (d - mean).abs() > v.sqrt() {
            return InverseDepth::Discarded;
        }
    }
    InverseDepth::WithVariance(mean, var)
}

#[test]
fn from_depth_zero_sample_is_unknown() {
    let convert = |d: u16| 5000.0f32 / d as f32;
    assert_eq!(
        vors::inverse_depth::from_depth(0, convert, 0.0001f32),
        Obs::Unknown
    );
    assert_eq!(
        vors::inverse_depth::from_depth(5000, convert, 0.0001f32),
        Obs::WithVariance(1.0, 0.0001)
    );
}

#[test]
fn fuse_all_unknown_is_unknown() {
    let r = fuse(
        Obs::Unknown,
        Obs::Unknown,
        Obs::Unknown,
        Obs::Unknown,
        mean_strategy,
    );
    assert_eq!(r, Obs::Unknown);
}

#[test]
fn fuse_ignores_unknown_and_discarded_children() {
    let seen = std::cell::Cell::new(0usize);
    let r = fuse(
        Obs::Unknown,
        Obs::WithVariance(2.0, 0.5),
        Obs::Discarded,
        Obs::WithVariance(2.0, 0.5),
        |valids: Vec<(f32, f32)>| {
            seen.set(valids.len());
            InverseDepth::WithVariance(valids[0].0, valids[0].1)
        },
    );
    assert_eq!(seen.get(), 2);
    assert_eq!(r, Obs::WithVariance(2.0, 0.5));
}

#[test]
fn fuse_keeps_child_order() {
    let r = fuse(
        Obs::WithVariance(1.0, 0.1),
        Obs::Unknown,
        Obs::WithVariance(3.0, 0.3),
        Obs::WithVariance(4.0, 0.4),
        |valids: Vec<(f32, f32)>| {
            assert_eq!(valids, vec![(1.0, 0.1), (3.0, 0.3), (4.0, 0.4)]);
            InverseDepth::Unknown
        },
    );
    assert_eq!(r, Obs::Unknown);
}

#[test]
fn fuse_agreeing_children_average() {
    // Four identical observations: the mean strategy keeps the depth and
    // shrinks the variance; it never discards agreement.
    let child = Obs::WithVariance(2.0, 0.4);
    let r = fuse(child, child, child, child, mean_strategy);
    match r {
        InverseDepth::WithVariance(d, v) => {
            assert_eq!(d, 2.0);
            assert!(v <= 0.4);
        }
        other => panic!("expected a fused estimate, got {:?}", other),
    }
}

#[test]
fn fuse_pyramid_halves_and_fuses() {
    // 2x2 observation blocks collapse into one fused parent per block.
    let level0 = Matrix::from_row_major(
        2,
        2,
        vec![
            Obs::WithVariance(2.0, 0.4),
            Obs::Unknown,
            Obs::WithVariance(2.0, 0.4),
            Obs::WithVariance(2.0, 0.4),
        ],
    )
    .unwrap();
    let pyr = fuse_pyramid(3, level0, mean_strategy);
    // A 2x2 level halves once, then 1x1 bottoms out: two levels.
    assert_eq!(pyr.len(), 2);
    assert_eq!((pyr[1].num_rows(), pyr[1].num_cols()), (1, 1));
    match pyr[1].get(0, 0) {
        InverseDepth::WithVariance(d, v) => {
            assert_eq!(d, 2.0);
            assert!(v <= 0.4);
        }
        other => panic!("expected a fused estimate, got {:?}", other),
    }
}

#[test]
fn fuse_pyramid_all_unknown_parent() {
    let level0 =
        Matrix::from_row_major(2, 2, vec![Obs::Unknown; 4]).unwrap();
    let pyr = fuse_pyramid(2, level0, mean_strategy);
    assert_eq!(pyr.len(), 2);
    assert_eq!(pyr[1].get(0, 0), Obs::Unknown);
}

#[test]
fn fuse_disagreeing_children_discard() {
    let r = fuse(
        Obs::WithVariance(1.0, 0.01),
        Obs::WithVariance(2.0, 0.01),
        Obs::WithVariance(3.0, 0.01),
        Obs::WithVariance(100.0, 0.01),
        mean_strategy,
    );
    assert_eq!(r, Obs::Discarded);
}
