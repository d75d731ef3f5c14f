//! The text that shows an extracted value: a number in decimal, hexadecimal
//! or binary, its bytes as characters, or a dump of them in rows.

use crate::bignum::biguint_value;
use crate::bignum::lemma_minimal_bytes_of_value;
use crate::bignum::minimal_be_bytes;
use crate::bignum::to_bytes_be;
use crate::bignum::to_decimal;
use crate::bignum::to_prefixed_binary;
use crate::bignum::to_prefixed_hex;
use crate::bits::be_bytes_value;
use crate::bits::lemma_be_bytes_as_bits;
use crate::extract::BitOrder;
use crate::extract::extract_spec;
use crate::numeral::binary_digits;
use crate::numeral::decimal_digits;
use crate::numeral::digit_char;
use crate::numeral::digit_to_char;
use crate::numeral::hex_digits;
use crate::numeral::push_padded_hex;
use crate::numeral::radix_len;
use crate::numeral::zero_padded;
use crate::text::push_char;
use num_bigint::BigUint;
use vstd::arithmetic::power2::lemma2_to64;
use vstd::arithmetic::power2::lemma_pow2_pos;
use vstd::arithmetic::power2::lemma_pow2_strictly_increases;
use vstd::arithmetic::power2::pow2;
use vstd::prelude::*;
use vstd::slice::slice_subrange;

verus! {

/// How a value is shown.
#[derive(Debug, Clone, Copy, PartialEq, Eq, Structural)]
pub enum OutputFormat {
    Decimal,
    Hex,
    Binary,
    Ascii,
    HexAscii,
}

/// The terminal width that is taken when none is known.
pub const DEFAULT_TERMINAL_WIDTH: u16 = 80;

/// `byte` is a visible ASCII character or the space.
pub open spec fn is_printable(byte: u8) -> bool {
    0x20 <= byte <= 0x7e
}

/// What stands for a byte that is not printable: one blank on a red ground.
pub open spec fn blank_cell() -> Seq<char> {
    "\x1b[41m \x1b[0m"@
}

/// One byte as text: its character if it is printable, else the marked blank.
pub open spec fn ascii_cell(byte: u8) -> Seq<char> {
    if is_printable(byte) {
        seq![byte as char]
    } else {
        blank_cell()
    }
}

/// The bytes as text, one cell each.
pub open spec fn ascii_text(bytes: Seq<u8>) -> Seq<char>
    decreases bytes.len(),
{
    if bytes.len() == 0 {
        Seq::empty()
    } else {
        ascii_text(bytes.drop_last()) + ascii_cell(bytes.last())
    }
}

/// One byte in a dump: two lower-case hexadecimal digits and a space.
pub open spec fn hex_cell(byte: u8) -> Seq<char> {
    seq![digit_char((byte / 16) as nat), digit_char((byte % 16) as nat), ' ']
}

/// The bytes of a row in hexadecimal, one cell each.
pub open spec fn hex_text(bytes: Seq<u8>) -> Seq<char>
    decreases bytes.len(),
{
    if bytes.len() == 0 {
        Seq::empty()
    } else {
        hex_text(bytes.drop_last()) + hex_cell(bytes.last())
    }
}

/// One row of a dump: the offset of its first byte in hexadecimal, padded
/// with zeros to `offset_width` digits, then `: `, the bytes in hexadecimal,
/// three spaces for each byte that the row lacks of `width`, then `| `, the
/// bytes as text, and a line break.
pub open spec fn hex_ascii_row(row: Seq<u8>, row_offset: nat, width: nat, offset_width: nat) -> Seq<
    char,
> {
    zero_padded(hex_digits(row_offset), offset_width) + ": "@ + hex_text(row) + Seq::new(
        (3 * (width - row.len())) as nat,
        |i: int| ' ',
    ) + "| "@ + ascii_text(row) + seq!['\n']
}

/// The dump of `bytes` in rows of `width` bytes, the first byte at `start_offset`.
pub open spec fn hex_ascii_dump(
    bytes: Seq<u8>,
    start_offset: nat,
    width: nat,
    offset_width: nat,
) -> Seq<char>
    decreases bytes.len(),
{
    if bytes.len() == 0 || width == 0 {
        Seq::empty()
    } else if bytes.len() <= width {
        hex_ascii_row(bytes, start_offset, width, offset_width)
    } else {
        hex_ascii_row(bytes.take(width as int), start_offset, width, offset_width) + hex_ascii_dump(
            bytes.skip(width as int),
            start_offset + width,
            width,
            offset_width,
        )
    }
}

/// `n` is a power of two.
pub open spec fn is_power_of_two(n: nat) -> bool {
    exists|i: nat| n == pow2(i)
}

/// `n` is the sum of two different powers of two.
pub open spec fn is_sum_of_two_powers(n: nat) -> bool {
    exists|i: nat, j: nat| i < j && n == #[trigger] pow2(i) + #[trigger] pow2(j)
}

/// `n` is a power of two, or the sum of two different powers of two.
pub open spec fn is_round(n: nat) -> bool {
    is_power_of_two(n) || is_sum_of_two_powers(n)
}

/// `width` is one of the row widths that a dump may have.
pub open spec fn is_row_width(width: int) -> bool {
    width == 64 || width == 48 || width == 32 || width == 24 || width == 16 || width == 12 || width
        == 8
}

/// How many bytes fit a row: each takes three columns in hexadecimal and
/// one as text, beside the offset field and five columns of punctuation.
pub open spec fn row_budget(term_width: u16, offset_width: u16) -> int {
    (term_width - offset_width - 5) / 4
}

/// The widest row width that fits the budget, or 8 if none does.
pub open spec fn best_fit_width_spec(term_width: u16, offset_width: u16) -> u16 {
    let budget = row_budget(term_width, offset_width);
    if budget >= 64 {
        64
    } else if budget >= 48 {
        48
    } else if budget >= 32 {
        32
    } else if budget >= 24 {
        24
    } else if budget >= 16 {
        16
    } else if budget >= 12 {
        12
    } else {
        8
    }
}

/// The terminal width to go by: the width of the terminal on standard
/// output if there is one, else of the terminal on standard error, else the
/// default.
pub open spec fn terminal_width_spec(
    stdout_columns: Option<u16>,
    stderr_columns: Option<u16>,
) -> u16 {
    match stdout_columns {
        Some(columns) => columns,
        None => match stderr_columns {
            Some(columns) => columns,
            None => DEFAULT_TERMINAL_WIDTH,
        },
    }
}

/// The big-endian bytes of `value`, with zero bytes before them up to `min_len` bytes.
pub open spec fn padded_be_bytes(value: nat, min_len: nat) -> Seq<u8> {
    let bytes = minimal_be_bytes(value);
    if bytes.len() >= min_len {
        bytes
    } else {
        Seq::new((min_len - bytes.len()) as nat, |i: int| 0u8) + bytes
    }
}

/// How many bytes hold `bit_width` bits.
pub open spec fn byte_count(bit_width: nat) -> nat {
    (bit_width + 7) / 8
}

/// What a dump needs to know beside the bytes.
#[derive(Debug, Clone, Copy, PartialEq, Eq, Structural)]
pub struct RenderContext {
    pub terminal_width: u16,
    pub start_byte_offset: u64,
    pub offset_field_width: usize,
    pub row_width_bytes: usize,
}

impl RenderContext {
    /// The context for `byte_count` bytes that start at bit `start_bit`, on
    /// a terminal of the given width or of the default width: the offset
    /// field is as wide as the offset just past the last byte is long in
    /// hexadecimal, and the row is the widest that fits.
    pub open spec fn new_spec(
        terminal_width: Option<u16>,
        start_bit: u64,
        byte_count: usize,
    ) -> Self {
        let width = match terminal_width {
            Some(w) => w,
            None => DEFAULT_TERMINAL_WIDTH,
        };
        let field = hex_digits((start_bit / 8 + byte_count) as nat).len();
        RenderContext {
            terminal_width: width,
            start_byte_offset: start_bit / 8,
            offset_field_width: field as usize,
            row_width_bytes: best_fit_width_spec(width, field as u16) as usize,
        }
    }

    /// Works out the context for a dump.
    pub fn new(terminal_width: Option<u16>, start_bit: u64, byte_count: usize) -> (context: Self)
        ensures
            context == Self::new_spec(terminal_width, start_bit, byte_count),
            is_row_width(context.row_width_bytes as int),
            1 <= context.offset_field_width <= 128,
    {
        let width = match terminal_width {
            Some(w) => w,
            None => DEFAULT_TERMINAL_WIDTH,
        };
        let start_byte_offset = start_bit / 8;
        let field = radix_len(start_byte_offset as u128 + byte_count as u128, 16);
        let row = best_fit_width(width, field as u16);
        RenderContext {
            terminal_width: width,
            start_byte_offset,
            offset_field_width: field,
            row_width_bytes: row as usize,
        }
    }
}

/// Picks the terminal width from what the two streams report, each `None`
/// where the stream is no terminal.
pub fn terminal_width(stdout_columns: Option<u16>, stderr_columns: Option<u16>) -> (width: u16)
    ensures
        width == terminal_width_spec(stdout_columns, stderr_columns),
{
    match stdout_columns {
        Some(columns) => columns,
        None => match stderr_columns {
            Some(columns) => columns,
            None => DEFAULT_TERMINAL_WIDTH,
        },
    }
}

/// Tells whether `n` is a power of two or the sum of two different powers of two.
pub fn is_power_of_two_or_sum(n: u16) -> (round: bool)
    ensures
        round == is_round(n as nat),
{
    if n == 0 {
        proof {
            lemma_zero_is_not_round();
        }
        return false;
    }
    // Taking one from a number clears its lowest set bit and sets the bits below it.
    let rest: u16 = n & (n - 1);
    if rest == 0 {
        proof {
            lemma_one_bit_is_power(n);
        }
        return true;
    }
    let rest_of_rest: u16 = rest & (rest - 1);
    proof {
        lemma_bit_counts(n);
    }
    rest_of_rest == 0
}

/// The row width for a terminal of `term_width` columns and an offset field
/// of `offset_width` digits.
pub fn best_fit_width(term_width: u16, offset_width: u16) -> (width: u16)
    ensures
        width == best_fit_width_spec(term_width, offset_width),
        is_row_width(width as int),
        is_round(width as nat),
        width <= row_budget(term_width, offset_width) || width == 8,
        forall|other: int|
            is_row_width(other) && other <= row_budget(term_width, offset_width) ==> other <= width,
{
    let available: u16 = if term_width as u32 > offset_width as u32 + 5 {
        (term_width - offset_width - 5) / 4
    } else {
        0
    };
    let candidates: [u16; 7] = [64, 48, 32, 24, 16, 12, 8];
    let mut i: usize = 0;
    while i < 7
        invariant
            i <= 7,
            candidates@ == seq![64u16, 48u16, 32u16, 24u16, 16u16, 12u16, 8u16],
            available == if row_budget(term_width, offset_width) > 0 {
                row_budget(term_width, offset_width)
            } else {
                0
            },
            forall|k: int| 0 <= k < i ==> candidates@[k] > available,
        decreases 7 - i,
    {
        let width = candidates[i];
        proof {
            lemma_row_widths_are_round();
            assert(is_row_width(width as int));
        }
        if width <= available && is_power_of_two_or_sum(width) {
            return width;
        }
        i += 1;
    }
    proof {
        lemma_row_widths_are_round();
        assert(is_row_width(8));
    }
    8
}

/// Appends the bytes as text to `out`.
pub fn push_ascii(out: &mut String, bytes: &[u8])
    ensures
        final(out)@ == old(out)@ + ascii_text(bytes@),
{
    let mut i: usize = 0;
    assert(bytes@.take(0) == Seq::<u8>::empty());
    while i < bytes.len()
        invariant
            i <= bytes@.len(),
            out@ == old(out)@ + ascii_text(bytes@.take(i as int)),
        decreases bytes@.len() - i,
    {
        let byte = bytes[i];
        proof {
            let longer = bytes@.take(i + 1);
            assert(longer.drop_last() == bytes@.take(i as int));
            assert(longer.last() == byte);
        }
        if byte >= 0x20 && byte <= 0x7e {
            push_char(out, byte as char);
            assert(out@ == old(out)@ + ascii_text(bytes@.take(i + 1)));
        } else {
            out.append("\x1b[41m \x1b[0m");
            assert(out@ == old(out)@ + ascii_text(bytes@.take(i + 1)));
        }
        i += 1;
    }
    assert(bytes@.take(bytes@.len() as int) == bytes@);
}

/// Appends the bytes in hexadecimal to `out`.
pub fn push_hex(out: &mut String, bytes: &[u8])
    ensures
        final(out)@ == old(out)@ + hex_text(bytes@),
{
    let mut i: usize = 0;
    assert(bytes@.take(0) == Seq::<u8>::empty());
    while i < bytes.len()
        invariant
            i <= bytes@.len(),
            out@ == old(out)@ + hex_text(bytes@.take(i as int)),
        decreases bytes@.len() - i,
    {
        let byte = bytes[i];
        let ghost before = out@;
        push_char(out, digit_to_char(byte / 16));
        push_char(out, digit_to_char(byte % 16));
        push_char(out, ' ');
        proof {
            let longer = bytes@.take(i + 1);
            assert(longer.drop_last() == bytes@.take(i as int));
            assert(longer.last() == byte);
            assert(out@ == before + hex_cell(byte));
        }
        i += 1;
    }
    assert(bytes@.take(bytes@.len() as int) == bytes@);
}

/// The bytes as text on one line.
pub fn render_ascii(bytes: &[u8]) -> (text: String)
    ensures
        text@ == ascii_text(bytes@) + seq!['\n'],
{
    let mut text = String::new();
    push_ascii(&mut text, bytes);
    push_char(&mut text, '\n');
    text
}

/// Appends three spaces to `out` for each of `missing` bytes.
fn push_row_padding(out: &mut String, missing: usize)
    ensures
        final(out)@ == old(out)@ + Seq::new((3 * missing) as nat, |i: int| ' '),
{
    let mut done: usize = 0;
    while done < missing
        invariant
            done <= missing,
            out@ == old(out)@ + Seq::new((3 * done) as nat, |i: int| ' '),
        decreases missing - done,
    {
        push_char(out, ' ');
        push_char(out, ' ');
        push_char(out, ' ');
        done += 1;
    }
}

/// Appends one row of a dump to `out`.
fn push_hex_ascii_row(
    out: &mut String,
    row: &[u8],
    row_offset: u128,
    width: usize,
    offset_width: usize,
)
    requires
        row@.len() <= width,
    ensures
        final(out)@ == old(out)@ + hex_ascii_row(
            row@,
            row_offset as nat,
            width as nat,
            offset_width as nat,
        ),
{
    push_padded_hex(out, row_offset, offset_width);
    out.append(": ");
    push_hex(out, row);
    push_row_padding(out, width - row.len());
    out.append("| ");
    push_ascii(out, row);
    push_char(out, '\n');
}

/// The dump of `bytes` in rows of `width` bytes, the first byte at `start_offset`.
pub fn render_hex_ascii(
    bytes: &[u8],
    start_offset: u64,
    width: usize,
    offset_width: usize,
) -> (text: String)
    requires
        width > 0,
    ensures
        text@ == hex_ascii_dump(
            bytes@,
            start_offset as nat,
            width as nat,
            offset_width as nat,
        ),
{
    let mut text = String::new();
    let mut pos: usize = 0;
    assert(bytes@.skip(0) == bytes@);
    while pos < bytes.len()
        invariant
            width > 0,
            pos <= bytes@.len(),
            hex_ascii_dump(bytes@, start_offset as nat, width as nat, offset_width as nat)
                == text@ + hex_ascii_dump(
                bytes@.skip(pos as int),
                (start_offset + pos) as nat,
                width as nat,
                offset_width as nat,
            ),
        decreases bytes@.len() - pos,
    {
        let remaining = bytes.len() - pos;
        let row_len = if remaining <= width {
            remaining
        } else {
            width
        };
        let row = slice_subrange(bytes, pos, pos + row_len);
        proof {
            let rest = bytes@.skip(pos as int);
            if remaining <= width {
                assert(bytes@.skip(pos + row_len) == Seq::<u8>::empty());
            } else {
                assert(row@ == rest.take(width as int));
                assert(bytes@.skip(pos + row_len) == rest.skip(width as int));
            }
        }
        push_hex_ascii_row(&mut text, row, start_offset as u128 + pos as u128, width, offset_width);
        pos += row_len;
    }
    text
}

/// The big-endian bytes of `value`, with zero bytes before them up to `min_len` bytes.
pub fn to_padded_bytes(value: &BigUint, min_len: usize) -> (bytes: Vec<u8>)
    ensures
        bytes@ == padded_be_bytes(biguint_value(*value), min_len as nat),
{
    let mut digits = to_bytes_be(value);
    if digits.len() >= min_len {
        return digits;
    }
    let missing = min_len - digits.len();
    let mut bytes: Vec<u8> = Vec::new();
    while bytes.len() < missing
        invariant
            bytes@.len() <= missing,
            bytes@ == Seq::new(bytes@.len(), |i: int| 0u8),
        decreases missing - bytes@.len(),
    {
        bytes.push(0u8);
    }
    bytes.append(&mut digits);
    bytes
}

/// The text that shows `value`, which was read from `bit_width` bits that
/// start at bit `start_bit`.
pub open spec fn render_spec(
    value: nat,
    bit_width: usize,
    format: OutputFormat,
    terminal_width: Option<u16>,
    start_bit: u64,
) -> Seq<char> {
    let bytes = padded_be_bytes(value, byte_count(bit_width as nat));
    match format {
        OutputFormat::Decimal => decimal_digits(value) + seq!['\n'],
        OutputFormat::Hex => "0x"@ + hex_digits(value) + seq!['\n'],
        OutputFormat::Binary => "0b"@ + binary_digits(value) + seq!['\n'],
        OutputFormat::Ascii => ascii_text(bytes) + seq!['\n'],
        OutputFormat::HexAscii => {
            let context = RenderContext::new_spec(terminal_width, start_bit, bytes.len() as usize);
            hex_ascii_dump(
                bytes,
                context.start_byte_offset as nat,
                context.row_width_bytes as nat,
                context.offset_field_width as nat,
            )
        },
    }
}

/// Shows `value`, which was read from `bit_width` bits that start at bit
/// `start_bit`, in the given format. The terminal width matters to a dump only.
pub fn render(
    value: &BigUint,
    bit_width: usize,
    format: OutputFormat,
    terminal_width: Option<u16>,
    start_bit: u64,
) -> (text: String)
    ensures
        text@ == render_spec(biguint_value(*value), bit_width, format, terminal_width, start_bit),
{
    let num_bytes = bit_width / 8 + if bit_width % 8 != 0 {
        1
    } else {
        0
    };
    match format {
        OutputFormat::Decimal => {
            let mut text = to_decimal(value);
            push_char(&mut text, '\n');
            text
        },
        OutputFormat::Hex => {
            let mut text = to_prefixed_hex(value);
            push_char(&mut text, '\n');
            text
        },
        OutputFormat::Binary => {
            let mut text = to_prefixed_binary(value);
            push_char(&mut text, '\n');
            text
        },
        OutputFormat::Ascii => {
            let bytes = to_padded_bytes(value, num_bytes);
            render_ascii(bytes.as_slice())
        },
        OutputFormat::HexAscii => {
            let bytes = to_padded_bytes(value, num_bytes);
            let context = RenderContext::new(terminal_width, start_bit, bytes.len());
            render_hex_ascii(
                bytes.as_slice(),
                context.start_byte_offset,
                context.row_width_bytes,
                context.offset_field_width,
            )
        },
    }
}

/// `n` without its lowest set bit.
spec fn without_lowest_bit(n: u16) -> u16 {
    n & ((n - 1) as u16)
}

/// Zero is neither a power of two nor a sum of two.
proof fn lemma_zero_is_not_round()
    ensures
        !is_round(0),
{
    assert forall|i: nat| pow2(i) > 0 by {
        lemma_pow2_pos(i);
    }
}

/// A 16-bit number with one bit set is a power of two.
proof fn lemma_one_bit_is_power(n: u16)
    requires
        n != 0,
        without_lowest_bit(n) == 0,
    ensures
        is_power_of_two(n as nat),
{
    assert(n == 1 || n == 2 || n == 4 || n == 8 || n == 16 || n == 32 || n == 64 || n == 128 || n
        == 256 || n == 512 || n == 1024 || n == 2048 || n == 4096 || n == 8192 || n == 16384 || n
        == 32768) by (bit_vector)
        requires
            n != 0,
            n & ((n - 1) as u16) == 0,
    ;
    lemma2_to64();
    assert(n == pow2(0) || n == pow2(1) || n == pow2(2) || n == pow2(3) || n == pow2(4) || n
        == pow2(5) || n == pow2(6) || n == pow2(7) || n == pow2(8) || n == pow2(9) || n == pow2(10)
        || n == pow2(11) || n == pow2(12) || n == pow2(13) || n == pow2(14) || n == pow2(15));
}

/// A 16-bit power of two has one bit set.
proof fn lemma_power_is_one_bit(n: u16, i: nat)
    requires
        n == pow2(i),
    ensures
        n != 0,
        without_lowest_bit(n) == 0,
{
    lemma2_to64();
    if i > 16 {
        lemma_pow2_strictly_increases(16, i);
    }
    assert(i == 0 || i == 1 || i == 2 || i == 3 || i == 4 || i == 5 || i == 6 || i == 7 || i == 8
        || i == 9 || i == 10 || i == 11 || i == 12 || i == 13 || i == 14 || i == 15);
    assert(n != 0 && n & ((n - 1) as u16) == 0) by (bit_vector)
        requires
            n == 1 || n == 2 || n == 4 || n == 8 || n == 16 || n == 32 || n == 64 || n == 128 || n
                == 256 || n == 512 || n == 1024 || n == 2048 || n == 4096 || n == 8192 || n
                == 16384 || n == 32768,
    ;
}

/// A 16-bit number with more than one bit set is the sum of two different
/// powers of two exactly if it has no third bit set, and is no power of two.
proof fn lemma_bit_counts(n: u16)
    requires
        n != 0,
        without_lowest_bit(n) != 0,
    ensures
        !is_power_of_two(n as nat),
        is_sum_of_two_powers(n as nat) <==> without_lowest_bit(without_lowest_bit(n)) == 0,
{
    let rest = without_lowest_bit(n);
    if is_power_of_two(n as nat) {
        let i = choose|i: nat| n == pow2(i);
        lemma_power_is_one_bit(n, i);
    }
    if without_lowest_bit(rest) == 0 {
        let low: u16 = (n - rest) as u16;
        assert(low != 0 && low & ((low - 1) as u16) == 0 && low < rest && low + rest == n)
            by (bit_vector)
            requires
                n != 0,
                rest == n & ((n - 1) as u16),
                rest != 0,
                low == (n - rest) as u16,
        ;
        lemma_one_bit_is_power(low);
        lemma_one_bit_is_power(rest);
        let i = choose|i: nat| low == pow2(i);
        let j = choose|j: nat| rest == pow2(j);
        if i > j {
            lemma_pow2_strictly_increases(j, i);
        }
        assert(i < j && n == pow2(i) + pow2(j));
    }
    if is_sum_of_two_powers(n as nat) {
        let (i, j) = choose|i: nat, j: nat| i < j && n == #[trigger] pow2(i) + #[trigger] pow2(j);
        lemma_pow2_pos(i);
        lemma_pow2_strictly_increases(i, j);
        let low: u16 = pow2(i) as u16;
        let high: u16 = pow2(j) as u16;
        lemma_power_is_one_bit(low, i);
        lemma_power_is_one_bit(high, j);
        assert((rest & ((rest - 1) as u16)) == 0) by (bit_vector)
            requires
                low != 0,
                low & ((low - 1) as u16) == 0,
                high != 0,
                high & ((high - 1) as u16) == 0,
                low < high,
                n == low + high,
                rest == n & ((n - 1) as u16),
        ;
    }
}

/// Every row width is a power of two or the sum of two.
proof fn lemma_row_widths_are_round()
    ensures
        forall|width: int| is_row_width(width) ==> is_round(width as nat),
{
    lemma2_to64();
    assert(64 == pow2(6) && 32 == pow2(5) && 16 == pow2(4) && 8 == pow2(3));
    assert(48 == pow2(4) + pow2(5) && 24 == pow2(3) + pow2(4) && 12 == pow2(2) + pow2(3));
}

/// Reading all the bits of a file that is not empty, most significant bit
/// first, and writing the number back as big-endian bytes, padded to the
/// size of the file, gives the bytes of the file. Without the padding it
/// gives them where the first byte is not zero.
pub proof fn law_round_trip(bytes: Seq<u8>)
    requires
        bytes.len() > 0,
    ensures
        padded_be_bytes(
            extract_spec(bytes, 0, 8 * bytes.len() as int, BitOrder::Msb),
            byte_count(8 * bytes.len()),
        ) == bytes,
        bytes[0] != 0 ==> minimal_be_bytes(
            extract_spec(bytes, 0, 8 * bytes.len() as int, BitOrder::Msb),
        ) == bytes,
{
    lemma_be_bytes_as_bits(bytes);
    lemma_minimal_bytes_of_value(bytes);
    let shortest = minimal_be_bytes(be_bytes_value(bytes));
    let zeros = Seq::new((bytes.len() - shortest.len()) as nat, |i: int| 0u8);
    if bytes[0] != 0 && shortest.len() < bytes.len() {
        assert((zeros + shortest)[0] == 0u8);
    }
}

} // verus!
