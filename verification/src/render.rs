//! Rendering of recovered bytes as address, grouped hex and printable ASCII.
//!
//! A rendered line reads
//! `0x<16 hex digits> | <hex field> | <ASCII field>`:
//! the hex field is always [`HEX_FIELD_WIDTH`] characters wide, so that the
//! ASCII fields of a full and of a short line start in the same column.

use vstd::arithmetic::div_mod::lemma_breakdown;
use vstd::arithmetic::power::{lemma_pow0, pow};
use vstd::prelude::*;

verus! {

/// Number of bytes shown on one rendered line.
pub const LINE_LEN: usize = 32;

/// Number of bytes in one hex group of a rendered line.
pub const CHUNK_SIZE: usize = 8;

/// Width in characters of the hex field: two digits for each of the
/// [`LINE_LEN`] byte positions and one blank after each group.
pub const HEX_FIELD_WIDTH: usize = 68;

/// Number of hex digits of the address column.
pub const ADDRESS_DIGITS: usize = 16;

/// The character that stands for `byte` in the ASCII field: the byte itself
/// when it is printable (space through tilde), a dot otherwise.
pub open spec fn printable(byte: u8) -> char {
    if 0x20 <= byte <= 0x7E {
        byte as char
    } else {
        '.'
    }
}

/// The upper-case hexadecimal digit for `d`, where `0 <= d < 16`.
pub open spec fn hex_digit(d: int) -> char {
    if d < 10 {
        ((0x30 + d) as u8) as char
    } else {
        ((0x37 + d) as u8) as char
    }
}

/// The value of an upper-case hexadecimal digit, or `-1` for any other
/// character.
pub open spec fn hex_value(c: char) -> int {
    let code = c as u32 as int;
    if 0x30 <= code <= 0x39 {
        code - 0x30
    } else if 0x41 <= code <= 0x46 {
        code - 0x37
    } else {
        -1
    }
}

/// The last `width` hexadecimal digits of `n`, most significant first,
/// padded with zeros on the left.
pub open spec fn hex_digits(n: nat, width: nat) -> Seq<char>
    decreases width,
{
    if width == 0 {
        Seq::empty()
    } else {
        hex_digits(n / 16, (width - 1) as nat).push(hex_digit((n % 16) as int))
    }
}

/// The number that a sequence of hexadecimal digits denotes.
pub open spec fn hex_number(digits: Seq<char>) -> int
    decreases digits.len(),
{
    if digits.len() == 0 {
        0
    } else {
        16 * hex_number(digits.drop_last()) + hex_value(digits.last())
    }
}

/// Column, within the hex field, of the first digit of the byte at `index`.
pub open spec fn pair_column(index: int) -> int {
    17 * (index / 8) + 2 * (index % 8)
}

/// The character in column `column` of the hex field of `bytes`.
///
/// The field is made of groups of 17 columns: eight digit pairs and a blank.
/// A pair whose byte is missing from a short line is blank.
pub open spec fn hex_field_at(bytes: Seq<u8>, column: int) -> char {
    let within = column % 17;
    let index = 8 * (column / 17) + within / 2;
    if within == 16 || index >= bytes.len() {
        ' '
    } else if within % 2 == 0 {
        hex_digit(bytes[index] as int / 16)
    } else {
        hex_digit(bytes[index] as int % 16)
    }
}

/// The hex field of a line that holds `bytes`.
pub open spec fn hex_field(bytes: Seq<u8>) -> Seq<char> {
    Seq::new(HEX_FIELD_WIDTH as nat, |column: int| hex_field_at(bytes, column))
}

/// The ASCII field of a line that holds `bytes`: one character per byte,
/// nothing for the positions that a short line lacks.
pub open spec fn ascii_field(bytes: Seq<u8>) -> Seq<char> {
    Seq::new(bytes.len(), |i: int| printable(bytes[i]))
}

/// The text of the line that shows `bytes`, found at address `addr`.
pub open spec fn line_text(addr: nat, bytes: Seq<u8>) -> Seq<char> {
    seq!['0', 'x'] + hex_digits(addr, ADDRESS_DIGITS as nat) + seq![' ', '|', ' '] + hex_field(bytes)
        + seq!['|', ' '] + ascii_field(bytes)
}

/// Maps a byte to the character shown for it in the ASCII field.
pub fn human_readable(byte: u8) -> (c: char)
    ensures
        c == printable(byte),
{
    if byte >= 0x20 && byte <= 0x7E {
        byte as char
    } else {
        '.'
    }
}

/// The upper-case hexadecimal digit for a nibble.
fn hex_digit_of(nibble: u8) -> (c: char)
    requires
        nibble < 16,
    ensures
        c == hex_digit(nibble as int),
{
    if nibble < 10 {
        (0x30 + nibble) as char
    } else {
        (0x37 + nibble) as char
    }
}

/// `String::push` of the standard library: appends the one character `c` to
/// the end of `text` and leaves what was there unchanged.
#[verifier::external_body]
fn push_char(text: &mut String, c: char)
    ensures
        final(text)@ == old(text)@.push(c),
{
    text.push(c);
}

/// Appends the [`ADDRESS_DIGITS`]-digit hexadecimal form of `addr`.
fn push_address(text: &mut String, addr: u64)
    ensures
        final(text)@ == old(text)@ + hex_digits(addr as nat, ADDRESS_DIGITS as nat),
{
    let mut digits: [char; 16] = ['0'; 16];
    let mut rest: u64 = addr;
    let mut filled: usize = 0;
    while filled < 16
        invariant
            filled <= 16,
            hex_digits(addr as nat, 16) == hex_digits(rest as nat, (16 - filled) as nat)
                + digits@.subrange(16 - filled, 16),
        decreases 16 - filled,
    {
        let low: u8 = (rest % 16) as u8;
        digits[15 - filled] = hex_digit_of(low);
        rest = rest / 16;
        filled = filled + 1;
    }
    let mut k: usize = 0;
    while k < 16
        invariant
            k <= 16,
            text@ == old(text)@ + digits@.subrange(0, k as int),
        decreases 16 - k,
    {
        push_char(text, digits[k]);
        k = k + 1;
    }
}

/// The first `width` columns of the hex field of `bytes`.
pub open spec fn hex_field_prefix(bytes: Seq<u8>, width: int) -> Seq<char> {
    Seq::new(width as nat, |column: int| hex_field_at(bytes, column))
}

/// Number of columns that the bytes of a line and the blanks that close
/// their groups take up in the hex field.
pub open spec fn occupied_columns(count: int) -> int {
    2 * count + (count + 7) / 8
}

/// Appends the hex field of `bytes`: the digit pairs in groups of
/// [`CHUNK_SIZE`], a blank behind each group, then two blanks for each
/// missing byte and one more for each whole group of missing bytes.
fn push_hex_field(text: &mut String, bytes: &[u8])
    requires
        bytes@.len() <= LINE_LEN,
    ensures
        final(text)@ == old(text)@ + hex_field(bytes@),
{
    let n = bytes.len();
    let mut i: usize = 0;
    let ghost mut col: int = 0;
    while i < n
        invariant
            i <= n <= LINE_LEN,
            n == bytes@.len(),
            col == 2 * i + (if i == n { (i + 7) / 8 } else { i as int / 8 }),
            text@ == old(text)@ + hex_field_prefix(bytes@, col),
        decreases n - i,
    {
        let byte = bytes[i];
        push_char(text, hex_digit_of(byte / 16));
        push_char(text, hex_digit_of(byte % 16));
        i = i + 1;
        proof {
            col = col + 2;
        }
        if i % CHUNK_SIZE == 0 || i == n {
            push_char(text, ' ');
            proof {
                col = col + 1;
            }
        }
    }
    let missing: usize = LINE_LEN - n;
    let mut k: usize = 0;
    while k < missing
        invariant
            k <= missing,
            missing == LINE_LEN - n,
            n == bytes@.len(),
            col == occupied_columns(n as int) + 2 * k,
            text@ == old(text)@ + hex_field_prefix(bytes@, col),
        decreases missing - k,
    {
        push_char(text, ' ');
        push_char(text, ' ');
        k = k + 1;
        proof {
            col = col + 2;
        }
    }
    let groups: usize = missing / CHUNK_SIZE;
    let mut g: usize = 0;
    while g < groups
        invariant
            g <= groups,
            groups == (LINE_LEN - n) / 8,
            n == bytes@.len(),
            n <= LINE_LEN,
            col == occupied_columns(n as int) + 2 * (LINE_LEN - n) + g,
            text@ == old(text)@ + hex_field_prefix(bytes@, col),
        decreases groups - g,
    {
        push_char(text, ' ');
        g = g + 1;
        proof {
            col = col + 1;
        }
    }
}

/// Appends the ASCII field of `bytes`.
fn push_ascii_field(text: &mut String, bytes: &[u8])
    ensures
        final(text)@ == old(text)@ + ascii_field(bytes@),
{
    let n = bytes.len();
    let mut i: usize = 0;
    while i < n
        invariant
            i <= n,
            n == bytes@.len(),
            text@ == old(text)@ + ascii_field(bytes@.take(i as int)),
        decreases n - i,
    {
        push_char(text, human_readable(bytes[i]));
        i = i + 1;
    }
}

/// Renders the line that shows `bytes`, which were found at address `addr`:
/// the address, the hex field and the ASCII field, without a line break.
pub fn dump_hex(addr: usize, bytes: &[u8]) -> (text: String)
    requires
        bytes@.len() <= LINE_LEN,
    ensures
        text@ == line_text(addr as nat, bytes@),
{
    let mut text = String::new();
    push_char(&mut text, '0');
    push_char(&mut text, 'x');
    push_address(&mut text, addr as u64);
    push_char(&mut text, ' ');
    push_char(&mut text, '|');
    push_char(&mut text, ' ');
    push_hex_field(&mut text, bytes);
    push_char(&mut text, '|');
    push_char(&mut text, ' ');
    push_ascii_field(&mut text, bytes);
    text
}

/// The ASCII field shows only printable characters, and shows a printable
/// byte as itself.
pub proof fn lemma_printable(byte: u8)
    ensures
        0x20 <= printable(byte) as u32 <= 0x7E,
        0x20 <= byte <= 0x7E ==> printable(byte) as u32 == byte,
        !(0x20 <= byte <= 0x7E) ==> printable(byte) == '.',
{
}

/// Reading a hexadecimal digit back gives the value it was written for.
pub proof fn lemma_hex_digit_round_trip(d: int)
    requires
        0 <= d < 16,
    ensures
        hex_value(hex_digit(d)) == d,
{
}

/// Reading the two digits in the columns of a byte gives that byte back:
/// the hex field loses nothing of the bytes it shows.
pub proof fn lemma_hex_field_round_trip(bytes: Seq<u8>, index: int)
    requires
        bytes.len() <= LINE_LEN,
        0 <= index < bytes.len(),
    ensures
        0 <= pair_column(index) < HEX_FIELD_WIDTH - 1,
        16 * hex_value(hex_field(bytes)[pair_column(index)]) + hex_value(
            hex_field(bytes)[pair_column(index) + 1],
        ) == bytes[index],
{
}

/// The hex field of a short line ends in blanks only: two for each missing
/// byte and one more for each whole group of [`CHUNK_SIZE`] missing bytes.
pub proof fn lemma_hex_field_padding(bytes: Seq<u8>)
    requires
        bytes.len() <= LINE_LEN,
    ensures
        HEX_FIELD_WIDTH - occupied_columns(bytes.len() as int) == 2 * (LINE_LEN - bytes.len()) + (
        LINE_LEN - bytes.len()) / (CHUNK_SIZE as int),
        forall|column: int|
            occupied_columns(bytes.len() as int) <= column < HEX_FIELD_WIDTH ==> #[trigger] hex_field(
                bytes,
            )[column] == ' ',
{
    assert forall|column: int|
        occupied_columns(bytes.len() as int) <= column < HEX_FIELD_WIDTH implies #[trigger] hex_field(
        bytes,
    )[column] == ' ' by {
        assert(hex_field(bytes)[column] == hex_field_at(bytes, column));
    }
}

/// Where each field of a line stands: the address digits behind `0x`, the
/// hex field behind the first bar, the ASCII field behind the second, and
/// nothing after it. The ASCII field is as long as the line has bytes.
pub proof fn lemma_line_fields(addr: nat, bytes: Seq<u8>)
    ensures
        line_text(addr, bytes).len() == 91 + bytes.len(),
        line_text(addr, bytes).subrange(0, 2) == seq!['0', 'x'],
        line_text(addr, bytes).subrange(2, 18) == hex_digits(addr, ADDRESS_DIGITS as nat),
        line_text(addr, bytes).subrange(18, 21) == seq![' ', '|', ' '],
        line_text(addr, bytes).subrange(21, 89) == hex_field(bytes),
        line_text(addr, bytes).subrange(89, 91) == seq!['|', ' '],
        line_text(addr, bytes).subrange(91, 91 + bytes.len() as int) == ascii_field(bytes),
        ascii_field(bytes).len() == bytes.len(),
{
    lemma_hex_digits_len(addr, ADDRESS_DIGITS as nat);
}

/// `hex_digits` yields exactly `width` digits.
pub proof fn lemma_hex_digits_len(n: nat, width: nat)
    ensures
        hex_digits(n, width).len() == width,
    decreases width,
{
    if width > 0 {
        lemma_hex_digits_len(n / 16, (width - 1) as nat);
    }
}

/// Reading `width` digits back gives the number they were written for,
/// as far as it fits in `width` digits.
pub proof fn lemma_hex_digits_round_trip(n: nat, width: nat)
    ensures
        hex_number(hex_digits(n, width)) == n % (pow(16, width) as nat),
        pow(16, width) > 0,
    decreases width,
{
    if width == 0 {
        lemma_pow0(16);
    } else {
        let shorter = hex_digits(n / 16, (width - 1) as nat);
        let digits = hex_digits(n, width);
        lemma_hex_digits_round_trip(n / 16, (width - 1) as nat);
        assert(digits.drop_last() == shorter);
        let rest = pow(16, (width - 1) as nat);
        assert(pow(16, width) == 16 * rest) by {
            reveal(pow);
        }
        lemma_breakdown(n as int, 16, rest);
    }
}

/// The address column of a line determines the address: sixteen digits hold
/// every 64-bit address in full.
pub proof fn lemma_address_round_trip(addr: u64)
    ensures
        hex_number(hex_digits(addr as nat, ADDRESS_DIGITS as nat)) == addr,
{
    lemma_hex_digits_round_trip(addr as nat, 16);
    assert(pow(16, 16) == 0x1_0000_0000_0000_0000) by {
        reveal_with_fuel(pow, 17);
    }
    assert((addr as nat) % 0x1_0000_0000_0000_0000nat == addr as nat);
}

} // verus!
