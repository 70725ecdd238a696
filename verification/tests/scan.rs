use byte_oracle::render::{dump_hex, LINE_LEN};
use byte_oracle::scan::{Line, SecretRange};

#[test]
fn range_must_end_within_the_address_space() {
    assert!(SecretRange::new(0, 0).is_some());
    assert!(SecretRange::new(usize::MAX, 0).is_some());
    assert!(SecretRange::new(usize::MAX - 22, 22).is_some());
    assert!(SecretRange::new(usize::MAX - 21, 22).is_none());
    assert!(SecretRange::new(1, usize::MAX).is_none());
    let range = SecretRange::new(0x1000, 22).unwrap();
    assert_eq!(range.start(), 0x1000);
    assert_eq!(range.len(), 22);
}

#[test]
fn line_count_rounds_up() {
    let count = |len: usize| SecretRange::new(0x1000, len).unwrap().line_count();
    assert_eq!(LINE_LEN, 32);
    assert_eq!(count(0), 0);
    assert_eq!(count(1), 1);
    assert_eq!(count(22), 1);
    assert_eq!(count(23), 1);
    assert_eq!(count(32), 1);
    assert_eq!(count(33), 2);
    assert_eq!(count(64), 2);
    assert_eq!(count(65), 3);
    assert_eq!(SecretRange::new(0, usize::MAX).unwrap().line_count(), usize::MAX / 32 + 1);
}

#[test]
fn lines_are_full_but_the_last() {
    let range = SecretRange::new(0x4000, 70).unwrap();
    assert_eq!(range.line(0), Some(Line { address: 0x4000, offset: 0, len: 32 }));
    assert_eq!(range.line(1), Some(Line { address: 0x4020, offset: 32, len: 32 }));
    assert_eq!(range.line(2), Some(Line { address: 0x4040, offset: 64, len: 6 }));
    assert_eq!(range.line(3), None);
    assert_eq!(range.line(usize::MAX), None);
}

#[test]
fn a_range_of_whole_lines_has_no_short_line() {
    let range = SecretRange::new(0x4000, 64).unwrap();
    assert_eq!(range.line(1), Some(Line { address: 0x4020, offset: 32, len: 32 }));
    assert_eq!(range.line(2), None);
    assert_eq!(SecretRange::new(0x4000, 0).unwrap().line(0), None);
}

#[test]
fn lines_cover_the_range_once() {
    for len in [0usize, 1, 22, 23, 31, 32, 33, 63, 64, 65, 200] {
        let range = SecretRange::new(0x9000, len).unwrap();
        let mut next = 0;
        for index in 0..range.line_count() {
            let line = range.line(index).unwrap();
            assert_eq!(line.offset, next);
            assert_eq!(line.address, 0x9000 + next);
            assert!(1 <= line.len && line.len <= LINE_LEN);
            if index + 1 < range.line_count() {
                assert_eq!(line.len, LINE_LEN);
            }
            next += line.len;
        }
        assert_eq!(next, len);
    }
}

#[test]
fn dump_of_the_demonstration_string_is_one_line() {
    let bytes = b"papa, can you hear me?";
    let range = SecretRange::new(0x401000, bytes.len()).unwrap();
    let lines = range.dump(bytes).unwrap();
    assert_eq!(
        lines,
        vec![
            "0x0000000000401000 | 706170612C206361 6E20796F75206865 6172206D653F                      | papa, can you hear me?"
        ]
    );
}

#[test]
fn dump_of_23_bytes_is_one_line() {
    let bytes = b"papa, can you hear me??";
    assert_eq!(bytes.len(), 23);
    let range = SecretRange::new(0x401000, 23).unwrap();
    let lines = range.dump(bytes).unwrap();
    assert_eq!(lines.len(), 1);
    assert_eq!(lines[0], dump_hex(0x401000, bytes));
    assert!(lines[0].ends_with("| papa, can you hear me??"));
}

#[test]
fn dump_cuts_longer_ranges_into_lines() {
    let bytes: Vec<u8> = (0u8..70).map(|i| b'A' + i % 26).collect();
    let range = SecretRange::new(0x7FFF_0000, bytes.len()).unwrap();
    let lines = range.dump(&bytes).unwrap();
    assert_eq!(lines.len(), 3);
    assert_eq!(lines[0], dump_hex(0x7FFF_0000, &bytes[0..32]));
    assert_eq!(lines[1], dump_hex(0x7FFF_0020, &bytes[32..64]));
    assert_eq!(lines[2], dump_hex(0x7FFF_0040, &bytes[64..70]));
    assert_eq!(
        lines[2],
        "0x000000007FFF0040 | 4D4E4F505152                                                        | MNOPQR"
    );
}

#[test]
fn dump_of_an_empty_range_has_no_line() {
    let range = SecretRange::new(0x1000, 0).unwrap();
    assert_eq!(range.dump(&[]), Some(Vec::new()));
}

#[test]
fn dump_needs_one_byte_for_each_address() {
    let range = SecretRange::new(0x1000, 4).unwrap();
    assert!(range.dump(&[1, 2, 3]).is_none());
    assert!(range.dump(&[1, 2, 3, 4, 5]).is_none());
    assert!(range.dump(&[]).is_none());
    assert!(range.dump(&[1, 2, 3, 4]).is_some());
}
