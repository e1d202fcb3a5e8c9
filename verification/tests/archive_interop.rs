use vors::archive::{get_buffer, read_file_entry, FileEntry};
use vors::interop::{depth_matrix_from_be_bytes, read_u16_be_buffer};

#[test]
fn read_file_entry_copies_exact_range() {
    let file: Vec<u8> = (0..10).collect();
    let entry = FileEntry { offset: 3, length: 4 };
    assert_eq!(read_file_entry(&entry, &file).unwrap(), vec![3, 4, 5, 6]);
}

#[test]
fn read_file_entry_rejects_out_of_bounds() {
    let file: Vec<u8> = vec![0; 8];
    assert!(read_file_entry(&FileEntry { offset: 5, length: 4 }, &file).is_err());
    assert!(read_file_entry(&FileEntry { offset: 9, length: 0 }, &file).is_err());
    assert!(read_file_entry(&FileEntry { offset: 8, length: 0 }, &file).is_ok());
}

#[test]
fn get_buffer_finds_named_entry() {
    let file: Vec<u8> = b"hello world archive".to_vec();
    let entries = vec![
        (b"a.txt".to_vec(), FileEntry { offset: 0, length: 5 }),
        (b"b.txt".to_vec(), FileEntry { offset: 6, length: 5 }),
    ];
    assert_eq!(get_buffer(b"b.txt", &file, &entries).unwrap(), b"world".to_vec());
    assert_eq!(get_buffer(b"a.txt", &file, &entries).unwrap(), b"hello".to_vec());
}

#[test]
fn get_buffer_reports_truncated_entry() {
    let file: Vec<u8> = vec![1, 2, 3];
    let entries = vec![(b"big".to_vec(), FileEntry { offset: 2, length: 5 })];
    assert!(get_buffer(b"big", &file, &entries).is_err());
}

#[test]
fn u16_buffer_is_big_endian() {
    let bytes = [0x01u8, 0x02, 0xff, 0x00, 0x00, 0x10];
    let samples = read_u16_be_buffer(&bytes);
    assert_eq!(samples, vec![0x0102, 0xff00, 0x0010]);
}

#[test]
fn u16_buffer_drops_trailing_odd_byte() {
    assert_eq!(read_u16_be_buffer(&[0x12u8, 0x34, 0x56]), vec![0x1234]);
}

#[test]
fn depth_matrix_shapes_samples() {
    let bytes = [0x00u8, 0x01, 0x00, 0x02, 0x00, 0x03, 0x00, 0x04];
    let m = depth_matrix_from_be_bytes(2, 2, &bytes).unwrap();
    assert_eq!(m.get(0, 0), 1);
    assert_eq!(m.get(0, 1), 2);
    assert_eq!(m.get(1, 0), 3);
    assert_eq!(m.get(1, 1), 4);
    assert!(depth_matrix_from_be_bytes(2, 3, &bytes).is_none());
}
