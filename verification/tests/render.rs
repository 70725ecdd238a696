use byte_oracle::render::{dump_hex, human_readable, HEX_FIELD_WIDTH, LINE_LEN};

const PAPA: &[u8] = b"papa, can you hear me?";

/// Splits a rendered line into its address, hex and ASCII fields.
fn fields(line: &str) -> (String, String, String) {
    let chars: Vec<char> = line.chars().collect();
    assert_eq!(&chars[0..2], &['0', 'x']);
    assert_eq!(&chars[18..21], &[' ', '|', ' ']);
    assert_eq!(&chars[89..91], &['|', ' ']);
    (
        chars[2..18].iter().collect(),
        chars[21..89].iter().collect(),
        chars[91..].iter().collect(),
    )
}

/// Reads the bytes back out of a hex field.
fn parse_hex_field(field: &str, count: usize) -> Vec<u8> {
    let chars: Vec<char> = field.chars().collect();
    let mut bytes = Vec::new();
    for index in 0..count {
        let column = 17 * (index / 8) + 2 * (index % 8);
        let pair: String = chars[column..column + 2].iter().collect();
        bytes.push(u8::from_str_radix(&pair, 16).unwrap());
    }
    bytes
}

#[test]
fn human_readable_keeps_printable_bytes() {
    assert_eq!(human_readable(b' '), ' ');
    assert_eq!(human_readable(b'~'), '~');
    assert_eq!(human_readable(b'A'), 'A');
    assert_eq!(human_readable(b'?'), '?');
    for byte in 0x20u8..=0x7E {
        assert_eq!(human_readable(byte), byte as char);
    }
}

#[test]
fn human_readable_replaces_everything_else_by_a_dot() {
    assert_eq!(human_readable(0x00), '.');
    assert_eq!(human_readable(0x1F), '.');
    assert_eq!(human_readable(0x7F), '.');
    assert_eq!(human_readable(0x80), '.');
    assert_eq!(human_readable(0xFF), '.');
    for byte in (0x00u8..0x20).chain(0x7Fu8..=0xFF) {
        assert_eq!(human_readable(byte), '.');
    }
}

#[test]
fn hex_digits_are_upper_case() {
    let line = dump_hex(0xABCD_EF01_2345_6789, &[0x01, 0x23, 0x45, 0x67, 0x89, 0xAB, 0xCD, 0xEF]);
    assert!(line.starts_with("0xABCDEF0123456789 | 0123456789ABCDEF "));
    assert!(!line.chars().take(89).any(|c| c.is_ascii_lowercase() && c != 'x'));
}

#[test]
fn dump_hex_renders_the_demonstration_string() {
    assert_eq!(PAPA.len(), 22);
    let line = dump_hex(0x401000, PAPA);
    assert_eq!(
        line,
        "0x0000000000401000 | 706170612C206361 6E20796F75206865 6172206D653F                      | papa, can you hear me?"
    );
}

#[test]
fn dump_hex_round_trips_the_demonstration_string() {
    let line = dump_hex(0x401000, PAPA);
    let (address, hex, ascii) = fields(&line);
    assert_eq!(u64::from_str_radix(&address, 16).unwrap(), 0x401000);
    assert_eq!(parse_hex_field(&hex, PAPA.len()), PAPA);
    assert_eq!(ascii, "papa, can you hear me?");
}

#[test]
fn dump_hex_of_23_bytes_pads_the_hex_field_only() {
    let mut bytes = PAPA.to_vec();
    bytes.push(b'\n');
    assert_eq!(bytes.len(), 23);
    let line = dump_hex(0x401000, &bytes);
    assert_eq!(
        line,
        "0x0000000000401000 | 706170612C206361 6E20796F75206865 6172206D653F0A                    | papa, can you hear me?."
    );
    assert!(!line.contains('\n'));
    let (_, hex, ascii) = fields(&line);
    assert_eq!(ascii.chars().count(), 23);
    assert_eq!(hex.chars().count(), HEX_FIELD_WIDTH);
    // 46 digits and 3 blanks that close the groups, then two blanks for each
    // of the 9 missing bytes and one for the whole group among them.
    let occupied = 2 * 23 + 3;
    assert_eq!(HEX_FIELD_WIDTH - occupied, 2 * 9 + 1);
    assert!(hex.chars().skip(occupied).all(|c| c == ' '));
    assert_eq!(parse_hex_field(&hex, 23), bytes);
}

#[test]
fn dump_hex_of_a_full_line() {
    let bytes: Vec<u8> = (0u8..32).collect();
    let line = dump_hex(0xFFFF_FFFF_FFFF_FFE0, &bytes);
    assert_eq!(
        line,
        "0xFFFFFFFFFFFFFFE0 | 0001020304050607 08090A0B0C0D0E0F 1011121314151617 18191A1B1C1D1E1F | ................................"
    );
    let letters: Vec<u8> = (0x40u8..0x60).collect();
    assert_eq!(
        dump_hex(0x1000, &letters),
        "0x0000000000001000 | 4041424344454647 48494A4B4C4D4E4F 5051525354555657 58595A5B5C5D5E5F | @ABCDEFGHIJKLMNOPQRSTUVWXYZ[\\]^_"
    );
}

#[test]
fn dump_hex_of_an_empty_line() {
    let line = dump_hex(0, &[]);
    assert_eq!(
        line,
        "0x0000000000000000 |                                                                     | "
    );
    assert_eq!(line.chars().count(), 91);
}

#[test]
fn dump_hex_of_a_single_byte() {
    assert_eq!(
        dump_hex(0x1020, &[0x60]),
        "0x0000000000001020 | 60                                                                  | `"
    );
}

#[test]
fn dump_hex_shows_unprintable_bytes_as_dots() {
    let bytes = [0x7E, 0x7F, 0x1F, 0x20, 0xFF, 0x00, 0x41, 0x80, 0x61];
    let line = dump_hex(0xDEAD_BEEF, &bytes);
    assert_eq!(
        line,
        "0x00000000DEADBEEF | 7E7F1F20FF004180 61                                                 | ~.. ..A.a"
    );
}

#[test]
fn dump_hex_round_trips_every_byte_value() {
    for start in (0u16..256).step_by(LINE_LEN) {
        let bytes: Vec<u8> = (start..start + LINE_LEN as u16).map(|b| b as u8).collect();
        let line = dump_hex(start as usize, &bytes);
        let (address, hex, ascii) = fields(&line);
        assert_eq!(usize::from_str_radix(&address, 16).unwrap(), start as usize);
        assert_eq!(parse_hex_field(&hex, bytes.len()), bytes);
        let shown: Vec<char> = ascii.chars().collect();
        for (i, &byte) in bytes.iter().enumerate() {
            if (0x20..=0x7E).contains(&byte) {
                assert_eq!(shown[i], byte as char);
            } else {
                assert_eq!(shown[i], '.');
            }
        }
    }
}

#[test]
fn dump_hex_keeps_the_ascii_column_fixed() {
    for len in 0..=LINE_LEN {
        let bytes = vec![b'x'; len];
        let line = dump_hex(0x10, &bytes);
        assert_eq!(line.chars().count(), 91 + len);
        let (_, hex, ascii) = fields(&line);
        assert_eq!(hex.chars().count(), HEX_FIELD_WIDTH);
        assert_eq!(ascii, "x".repeat(len));
    }
}
