use vors::tum_rgbd::{associations, groundtruth};

#[test]
fn associations_parse_records_and_comments() {
    let content = b"# depth and color pairs\n\
1305031102.160407 depth/1305031102.160407.png 1305031102.175304 rgb/1305031102.175304.png\n\
1305031102.194330 depth/a.png 1305031102.211214 rgb/b.png\n";
    let v = associations(content).unwrap();
    assert_eq!(v.len(), 2);
    assert_eq!(v[0].depth_timestamp, b"1305031102.160407".to_vec());
    assert_eq!(v[0].depth_file_path, b"depth/1305031102.160407.png".to_vec());
    assert_eq!(v[0].color_timestamp, b"1305031102.175304".to_vec());
    assert_eq!(v[0].color_file_path, b"rgb/1305031102.175304.png".to_vec());
    assert_eq!(v[1].depth_file_path, b"depth/a.png".to_vec());
}

#[test]
fn associations_accept_trailing_text_and_tabs() {
    let v = associations(b"1.5\tdepth.png\t2.5\trgb.png extra ignored").unwrap();
    assert_eq!(v.len(), 1);
    assert_eq!(v[0].color_file_path, b"rgb.png".to_vec());
}

#[test]
fn associations_reject_empty_line() {
    assert!(associations(b"1.0 a 2.0 b\n\n3.0 c 4.0 d").is_err());
}

#[test]
fn associations_reject_missing_field() {
    assert!(associations(b"1.0 a 2.0").is_err());
}

#[test]
fn associations_reject_non_numeric_timestamp() {
    assert!(associations(b"ts a 2.0 b").is_err());
    assert!(associations(b"1.2.3 a 2.0 b").is_err());
    assert!(associations(b"1.5e a 2.0 b").is_err());
}

#[test]
fn associations_reject_leading_blank() {
    assert!(associations(b" 1.0 a 2.0 b").is_err());
}

#[test]
fn associations_accept_exponents_and_signs() {
    let v = associations(b"-1.5e-3 a +2.5E+2 b\n.5 c 4. d").unwrap();
    assert_eq!(v.len(), 2);
    assert_eq!(v[0].depth_timestamp, b"-1.5e-3".to_vec());
    assert_eq!(v[1].depth_timestamp, b".5".to_vec());
    assert_eq!(v[1].color_timestamp, b"4.".to_vec());
}

#[test]
fn associations_empty_file_is_empty() {
    assert_eq!(associations(b"").unwrap().len(), 0);
}

#[test]
fn groundtruth_parses_poses() {
    let content = b"# ground truth trajectory\n\
1305031102.1758 1.3405 0.6266 1.6575 0.6574 0.6126 -0.2949 -0.3248\n";
    let v = groundtruth(content).unwrap();
    assert_eq!(v.len(), 1);
    assert_eq!(v[0].timestamp, b"1305031102.1758".to_vec());
    assert_eq!(v[0].pose.len(), 7);
    assert_eq!(v[0].pose[0], b"1.3405".to_vec());
    assert_eq!(v[0].pose[6], b"-0.3248".to_vec());
}

#[test]
fn groundtruth_rejects_short_record() {
    assert!(groundtruth(b"1.0 1 2 3 4 5 6").is_err());
    assert!(groundtruth(b"1.0 1 2 3 4 5 6 x").is_err());
}

#[test]
fn groundtruth_ignores_windows_line_endings() {
    let v = groundtruth(b"1.0 0 0 0 0 0 0 1\r\n2.0 1 1 1 0 0 0 1\r\n").unwrap();
    assert_eq!(v.len(), 2);
    assert_eq!(v[1].pose[0], b"1".to_vec());
}
