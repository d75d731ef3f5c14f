//! The offset and length tokens: a number in decimal or hexadecimal, with
//! thousands separators, an optional sign for offsets, and an optional
//! `bytes:bits` form.

use crate::numeral::bounded_digits_value;
use crate::numeral::decimal_digits;
use crate::numeral::digit_run;
use crate::numeral::is_digit;
use crate::numeral::is_numeral;
use crate::numeral::lemma_parse_radix_digits;
use crate::numeral::lemma_radix_digits_value;
use crate::numeral::numeral_value;
use crate::numeral::NumeralError;
use crate::numeral::parse_unsigned;
use crate::numeral::parse_unsigned_spec;
use crate::numeral::unsigned_body;
use crate::text::chars_of;
use crate::text::lemma_run_len_is;
use crate::text::run_len;
use vstd::prelude::*;
use vstd::slice::slice_subrange;

verus! {

/// Why a token was refused.
#[derive(Debug, Clone, PartialEq, Eq)]
pub enum OffsetError {
    /// The token is not a number; the text says what is wrong with it.
    ParseError(String),
    /// The part after `:` or `.` is a number above 7.
    InvalidBitOffset,
}

/// An `OffsetError` with its text as a sequence of characters.
pub enum OffsetFault {
    ParseError(Seq<char>),
    InvalidBitOffset,
}

impl View for OffsetError {
    type V = OffsetFault;

    open spec fn view(&self) -> OffsetFault {
        match self {
            OffsetError::ParseError(reason) => OffsetFault::ParseError(reason@),
            OffsetError::InvalidBitOffset => OffsetFault::InvalidBitOffset,
        }
    }
}

impl OffsetFault {
    /// The one-line message for the fault.
    pub open spec fn message(self) -> Seq<char> {
        match self {
            OffsetFault::ParseError(reason) => "Invalid offset: "@ + reason,
            OffsetFault::InvalidBitOffset => "Bit offset must be 0-7"@,
        }
    }
}

impl OffsetError {
    /// The one-line message for the error.
    pub fn to_string(&self) -> (text: String)
        ensures
            text@ == self@.message(),
    {
        match self {
            OffsetError::ParseError(reason) => {
                let mut text = "Invalid offset: ".to_owned();
                text.append(reason.as_str());
                text
            },
            OffsetError::InvalidBitOffset => "Bit offset must be 0-7".to_owned(),
        }
    }
}

/// The outcome of a parse with the error taken by its view.
pub open spec fn outcome<T>(r: Result<T, OffsetError>) -> Result<T, OffsetFault> {
    match r {
        Ok(value) => Ok(value),
        Err(e) => Err(e@),
    }
}

/// The white space that may stand before the number of an offset: the
/// characters with the Unicode property `White_Space`.
pub open spec fn is_whitespace(c: char) -> bool {
    let u = c as u32;
    ||| 0x09 <= u <= 0x0D
    ||| u == 0x20
    ||| u == 0x85
    ||| u == 0xA0
    ||| u == 0x1680
    ||| 0x2000 <= u <= 0x200A
    ||| u == 0x2028
    ||| u == 0x2029
    ||| u == 0x202F
    ||| u == 0x205F
    ||| u == 0x3000
}

/// `s` without the white space at its start.
pub open spec fn trim_start(s: Seq<char>) -> Seq<char> {
    s.skip(run_len(s, |c: char| is_whitespace(c)) as int)
}

/// The characters that may group the digits of a number.
pub open spec fn is_thousands_separator(c: char) -> bool {
    c == ',' || c == '_' || c == '\''
}

/// `s` with every thousands separator taken out.
pub open spec fn without_separators(s: Seq<char>) -> Seq<char> {
    s.filter(|c: char| !is_thousands_separator(c))
}

/// The characters that part the byte count from the bit count.
pub open spec fn is_bit_separator(c: char) -> bool {
    c == ':' || c == '.'
}

/// Where the first bit separator of `t` stands, or the length of `t` if it has none.
pub open spec fn bit_separator_index(t: Seq<char>) -> nat {
    run_len(t, |c: char| !is_bit_separator(c))
}

/// The number of a token: all that stands before the first bit separator.
pub open spec fn number_part(t: Seq<char>) -> Seq<char> {
    t.take(bit_separator_index(t) as int)
}

/// The bit suffix of a token: all that stands after the first bit separator, if there is one.
pub open spec fn bit_suffix_part(t: Seq<char>) -> Option<Seq<char>> {
    let at = bit_separator_index(t) as int;
    if at < t.len() {
        Some(t.skip(at + 1))
    } else {
        None
    }
}

/// The number starts with `0x` or `0X`.
pub open spec fn has_hex_prefix(num: Seq<char>) -> bool {
    num.len() >= 2 && num[0] == '0' && (num[1] == 'x' || num[1] == 'X')
}

/// The number starts with `$`.
pub open spec fn has_dollar_prefix(num: Seq<char>) -> bool {
    num.len() >= 1 && num[0] == '$'
}

/// The number ends in `h` or `H`.
pub open spec fn has_hex_suffix(num: Seq<char>) -> bool {
    num.len() >= 1 && (num.last() == 'h' || num.last() == 'H')
}

/// 16 where one of the three hexadecimal forms applies, else 10.
pub open spec fn number_radix(num: Seq<char>) -> nat {
    if has_hex_prefix(num) || has_dollar_prefix(num) || has_hex_suffix(num) {
        16
    } else {
        10
    }
}

/// The numeral inside the number: what is left when the mark of the first
/// hexadecimal form that applies (prefix, then `$`, then suffix) is taken off.
pub open spec fn number_numeral(num: Seq<char>) -> Seq<char> {
    if has_hex_prefix(num) {
        num.skip(2)
    } else if has_dollar_prefix(num) {
        num.skip(1)
    } else if has_hex_suffix(num) {
        num.drop_last()
    } else {
        num
    }
}

/// What the number of a token is worth; it has to fit 64 bits.
pub open spec fn number_spec(num: Seq<char>) -> Result<nat, OffsetFault> {
    match parse_unsigned_spec(number_numeral(num), number_radix(num), u64::MAX as nat) {
        Ok(value) => Ok(value),
        Err(e) => Err(OffsetFault::ParseError(e.message())),
    }
}

/// What the bit suffix of a token is worth: a decimal numeral from 0 to 7.
pub open spec fn bit_suffix_spec(suffix: Seq<char>) -> Result<nat, OffsetFault> {
    if !is_numeral(suffix, 10) {
        Err(OffsetFault::ParseError("Invalid bit count"@))
    } else if numeral_value(suffix, 10) > 7 {
        Err(OffsetFault::InvalidBitOffset)
    } else {
        Ok(numeral_value(suffix, 10))
    }
}

/// The number and the bit count that a token without sign and separators
/// writes. The bit suffix is judged first.
pub open spec fn token_spec(t: Seq<char>) -> Result<(nat, Option<nat>), OffsetFault> {
    match bit_suffix_part(t) {
        Some(suffix) => match bit_suffix_spec(suffix) {
            Err(e) => Err(e),
            Ok(bits) => match number_spec(number_part(t)) {
                Err(e) => Err(e),
                Ok(number) => Ok((number, Some(bits))),
            },
        },
        None => match number_spec(number_part(t)) {
            Err(e) => Err(e),
            Ok(number) => Ok((number, None)),
        },
    }
}

/// A number of bits to read.
#[derive(Debug, Clone, Copy, PartialEq, Eq, Structural)]
pub struct Length {
    pub bits: u64,
}

/// A position in a file: so many bytes and bits from its start, or from its
/// end when negative.
#[derive(Debug, Clone, Copy, PartialEq, Eq, Structural)]
pub struct Offset {
    pub bytes: u64,
    pub bits: u32,
    pub is_negative: bool,
}

impl Length {
    /// The length that a token writes. With a bit suffix the number counts
    /// bytes, without one it counts bits; the total has to fit 64 bits.
    pub open spec fn parse_spec(s: Seq<char>) -> Result<Length, OffsetFault> {
        match token_spec(without_separators(s)) {
            Err(e) => Err(e),
            Ok((number, None)) => Ok(Length { bits: number as u64 }),
            Ok((number, Some(bits))) => if number * 8 + bits > u64::MAX {
                Err(OffsetFault::ParseError(NumeralError::TooLarge.message()))
            } else {
                Ok(Length { bits: (number * 8 + bits) as u64 })
            },
        }
    }

    /// Parses a length token.
    pub fn from_str(s: &str) -> (r: Result<Length, OffsetError>)
        ensures
            outcome(r) == Length::parse_spec(s@),
    {
        let chars = chars_of(s);
        let token = strip_separators(chars.as_slice());
        match parse_token(token.as_slice()) {
            Err(e) => Err(e),
            Ok((number, None)) => Ok(Length { bits: number }),
            Ok((number, Some(bits))) => {
                if number > (u64::MAX - bits as u64) / 8 {
                    Err(OffsetError::ParseError(NumeralError::TooLarge.text().to_owned()))
                } else {
                    Ok(Length { bits: number * 8 + bits as u64 })
                }
            },
        }
    }

    /// The length in bits.
    pub fn to_bits(&self) -> (bits: u64)
        ensures
            bits == self.bits,
    {
        self.bits
    }
}

impl Offset {
    /// The bit count is one of 0 to 7, as the parser leaves it.
    pub open spec fn wf(self) -> bool {
        self.bits <= 7
    }

    /// The distance in bits, without the sign.
    pub open spec fn magnitude(self) -> nat {
        (self.bytes * 8 + self.bits) as nat
    }

    /// The distance in bits, negative when measured from the end.
    pub open spec fn signed_bits(self) -> int {
        if self.is_negative {
            -(self.magnitude() as int)
        } else {
            self.magnitude() as int
        }
    }

    /// The offset that a token writes. A `-` at the very start makes it
    /// negative. White space after the sign, or at the start of a token
    /// without one, is skipped. With a bit suffix the number counts bytes;
    /// without one it counts bits and is split into bytes and bits.
    pub open spec fn parse_spec(s: Seq<char>) -> Result<Offset, OffsetFault> {
        let is_negative = s.len() > 0 && s[0] == '-';
        let unsigned = if is_negative {
            s.drop_first()
        } else {
            s
        };
        match token_spec(without_separators(trim_start(unsigned))) {
            Err(e) => Err(e),
            Ok((number, None)) => Ok(
                Offset { bytes: (number / 8) as u64, bits: (number % 8) as u32, is_negative },
            ),
            Ok((number, Some(bits))) => Ok(
                Offset { bytes: number as u64, bits: bits as u32, is_negative },
            ),
        }
    }

    /// Parses an offset token.
    pub fn from_str(s: &str) -> (r: Result<Offset, OffsetError>)
        ensures
            outcome(r) == Offset::parse_spec(s@),
            r matches Ok(offset) ==> offset.wf(),
    {
        let chars = chars_of(s);
        let is_negative = chars.len() > 0 && chars[0] == '-';
        let after_sign: usize = if is_negative {
            1
        } else {
            0
        };
        let unsigned = slice_subrange(chars.as_slice(), after_sign, chars.len());
        assert(unsigned@ == if is_negative {
            s@.drop_first()
        } else {
            s@
        });
        let start = skip_whitespace(unsigned);
        let trimmed = slice_subrange(unsigned, start, unsigned.len());
        let token = strip_separators(trimmed);
        match parse_token(token.as_slice()) {
            Err(e) => Err(e),
            Ok((number, None)) => Ok(
                Offset { bytes: number / 8, bits: (number % 8) as u32, is_negative },
            ),
            Ok((number, Some(bits))) => Ok(
                Offset { bytes: number, bits: bits as u32, is_negative },
            ),
        }
    }

    /// The distance in bits, without the sign.
    pub fn magnitude_bits(&self) -> (bits: u128)
        ensures
            bits == self.magnitude(),
    {
        self.bytes as u128 * 8 + self.bits as u128
    }

    /// The distance in bits, negative when measured from the end.
    pub fn to_bits(&self) -> (bits: i128)
        ensures
            bits == self.signed_bits(),
    {
        let magnitude: i128 = self.bytes as i128 * 8 + self.bits as i128;
        if self.is_negative {
            -magnitude
        } else {
            magnitude
        }
    }
}

/// Parses an offset token; the error is the message.
pub fn parse_offset(s: &str) -> (r: Result<Offset, String>)
    ensures
        match r {
            Ok(offset) => Offset::parse_spec(s@) == Ok::<Offset, OffsetFault>(offset),
            Err(text) => Offset::parse_spec(s@) is Err && text@ == Offset::parse_spec(
                s@,
            )->Err_0.message(),
        },
{
    match Offset::from_str(s) {
        Ok(offset) => Ok(offset),
        Err(e) => Err(e.to_string()),
    }
}

/// Parses a length token; the error is the message.
pub fn parse_length(s: &str) -> (r: Result<Length, String>)
    ensures
        match r {
            Ok(length) => Length::parse_spec(s@) == Ok::<Length, OffsetFault>(length),
            Err(text) => Length::parse_spec(s@) is Err && text@ == Length::parse_spec(
                s@,
            )->Err_0.message(),
        },
{
    match Length::from_str(s) {
        Ok(length) => Ok(length),
        Err(e) => Err(e.to_string()),
    }
}

/// Tells white space from the rest.
pub fn is_whitespace_char(c: char) -> (b: bool)
    ensures
        b == is_whitespace(c),
{
    let u: u32 = c as u32;
    (0x09 <= u && u <= 0x0D) || u == 0x20 || u == 0x85 || u == 0xA0 || u == 0x1680 || (0x2000 <= u
        && u <= 0x200A) || u == 0x2028 || u == 0x2029 || u == 0x202F || u == 0x205F || u == 0x3000
}

/// The index of the first character of `s` that is not white space.
fn skip_whitespace(s: &[char]) -> (end: usize)
    ensures
        end == run_len(s@, |c: char| is_whitespace(c)),
        end <= s@.len(),
{
    let mut i: usize = 0;
    while i < s.len()
        invariant
            i <= s@.len(),
            forall|j: int| 0 <= j < i ==> is_whitespace(#[trigger] s@[j]),
        ensures
            i <= s@.len(),
            forall|j: int| 0 <= j < i ==> is_whitespace(#[trigger] s@[j]),
            i == s@.len() || !is_whitespace(s@[i as int]),
        decreases s@.len() - i,
    {
        if !is_whitespace_char(s[i]) {
            break ;
        }
        i += 1;
    }
    proof {
        lemma_run_len_is(s@, |c: char| is_whitespace(c), i as int);
    }
    i
}

/// The index of the first bit separator of `t`, or its length.
fn find_bit_separator(t: &[char]) -> (at: usize)
    ensures
        at == bit_separator_index(t@),
        at <= t@.len(),
{
    let mut i: usize = 0;
    while i < t.len()
        invariant
            i <= t@.len(),
            forall|j: int| 0 <= j < i ==> !is_bit_separator(#[trigger] t@[j]),
        ensures
            i <= t@.len(),
            forall|j: int| 0 <= j < i ==> !is_bit_separator(#[trigger] t@[j]),
            i == t@.len() || is_bit_separator(t@[i as int]),
        decreases t@.len() - i,
    {
        if t[i] == ':' || t[i] == '.' {
            break ;
        }
        i += 1;
    }
    proof {
        lemma_run_len_is(t@, |c: char| !is_bit_separator(c), i as int);
    }
    i
}

/// Copies `s` without its thousands separators.
fn strip_separators(s: &[char]) -> (out: Vec<char>)
    ensures
        out@ == without_separators(s@),
{
    let mut out: Vec<char> = Vec::new();
    let mut i: usize = 0;
    proof {
        reveal(Seq::filter);
    }
    while i < s.len()
        invariant
            i <= s@.len(),
            out@ == without_separators(s@.take(i as int)),
        decreases s@.len() - i,
    {
        let c = s[i];
        proof {
            reveal(Seq::filter);
            let longer = s@.take(i + 1);
            assert(longer.drop_last() == s@.take(i as int));
        }
        if !(c == ',' || c == '_' || c == '\'') {
            out.push(c);
        }
        i += 1;
    }
    assert(s@.take(s@.len() as int) == s@);
    out
}

/// Reads the number of a token.
fn parse_number(num: &[char]) -> (r: Result<u64, OffsetError>)
    ensures
        match r {
            Ok(value) => number_spec(num@) == Ok::<nat, OffsetFault>(value as nat),
            Err(e) => number_spec(num@) == Err::<nat, OffsetFault>(e@),
        },
{
    let len = num.len();
    let parsed = if len >= 2 && num[0] == '0' && (num[1] == 'x' || num[1] == 'X') {
        parse_unsigned(slice_subrange(num, 2, len), 16, u64::MAX)
    } else if len >= 1 && num[0] == '$' {
        parse_unsigned(slice_subrange(num, 1, len), 16, u64::MAX)
    } else if len >= 1 && (num[len - 1] == 'h' || num[len - 1] == 'H') {
        parse_unsigned(slice_subrange(num, 0, len - 1), 16, u64::MAX)
    } else {
        assert(num@.subrange(0, len as int) == num@);
        parse_unsigned(slice_subrange(num, 0, len), 10, u64::MAX)
    };
    match parsed {
        Ok(value) => Ok(value),
        Err(e) => Err(OffsetError::ParseError(e.text().to_owned())),
    }
}

/// Reads the bit suffix of a token.
fn parse_bit_suffix(suffix: &[char]) -> (r: Result<u8, OffsetError>)
    ensures
        match r {
            Ok(bits) => bit_suffix_spec(suffix@) == Ok::<nat, OffsetFault>(bits as nat) && bits
                <= 7,
            Err(e) => bit_suffix_spec(suffix@) == Err::<nat, OffsetFault>(e@),
        },
{
    let start: usize = if suffix.len() > 0 && suffix[0] == '+' {
        1
    } else {
        0
    };
    let body = slice_subrange(suffix, start, suffix.len());
    assert(body@ == unsigned_body(suffix@));
    let run = digit_run(body, 10);
    if body.len() == 0 || run < body.len() {
        return Err(OffsetError::ParseError("Invalid bit count".to_owned()));
    }
    assert(body@.take(run as int) == body@);
    match bounded_digits_value(body, run, 10, 7) {
        None => Err(OffsetError::InvalidBitOffset),
        Some(bits) => Ok(bits as u8),
    }
}

/// Reads a token that has neither sign nor separators left.
fn parse_token(t: &[char]) -> (r: Result<(u64, Option<u8>), OffsetError>)
    ensures
        match r {
            Ok((number, None)) => token_spec(t@) == Ok::<(nat, Option<nat>), OffsetFault>(
                (number as nat, None),
            ),
            Ok((number, Some(bits))) => token_spec(t@) == Ok::<(nat, Option<nat>), OffsetFault>(
                (number as nat, Some(bits as nat)),
            ) && bits <= 7,
            Err(e) => token_spec(t@) == Err::<(nat, Option<nat>), OffsetFault>(e@),
        },
{
    let at = find_bit_separator(t);
    let num = slice_subrange(t, 0, at);
    if at < t.len() {
        let suffix = slice_subrange(t, at + 1, t.len());
        let bits = parse_bit_suffix(suffix)?;
        let number = parse_number(num)?;
        Ok((number, Some(bits)))
    } else {
        let number = parse_number(num)?;
        Ok((number, None))
    }
}

impl Length {
    /// The length written as a plain decimal number of bits.
    pub open spec fn canonical(self) -> Seq<char> {
        decimal_digits(self.bits as nat)
    }
}

impl Offset {
    /// The offset written as a plain decimal number of bits, after a `-` if it is negative.
    pub open spec fn canonical(self) -> Seq<char> {
        if self.is_negative {
            seq!['-'] + decimal_digits(self.magnitude())
        } else {
            decimal_digits(self.magnitude())
        }
    }
}

/// A filter keeps a sequence whose every element passes.
proof fn lemma_filter_keeps_all(s: Seq<char>, pred: spec_fn(char) -> bool)
    requires
        forall|j: int| 0 <= j < s.len() ==> pred(#[trigger] s[j]),
    ensures
        s.filter(pred) == s,
    decreases s.len(),
{
    reveal(Seq::filter);
    if s.len() > 0 {
        lemma_filter_keeps_all(s.drop_last(), pred);
    }
}

/// A plain decimal number is a token without a bit suffix, worth the number.
proof fn lemma_decimal_token(n: nat)
    requires
        n <= u64::MAX,
    ensures
        decimal_digits(n).len() > 0,
        decimal_digits(n)[0] != '-',
        trim_start(decimal_digits(n)) == decimal_digits(n),
        token_spec(without_separators(decimal_digits(n))) == Ok::<
            (nat, Option<nat>),
            OffsetFault,
        >((n, None)),
{
    let d = decimal_digits(n);
    lemma_radix_digits_value(n, 10);
    lemma_parse_radix_digits(n, 10, u64::MAX as nat);
    assert forall|j: int| 0 <= j < d.len() implies !is_thousands_separator(#[trigger] d[j])
        && !is_bit_separator(d[j]) && !is_whitespace(d[j]) && d[j] != 'x' && d[j] != 'X' && d[j]
        != '$' && d[j] != 'h' && d[j] != 'H' && d[j] != '-' by {
        assert(is_digit(d[j], 10));
    }
    lemma_filter_keeps_all(d, |c: char| !is_thousands_separator(c));
    lemma_run_len_is(d, |c: char| !is_bit_separator(c), d.len() as int);
    lemma_run_len_is(d, |c: char| is_whitespace(c), 0);
    assert(!has_hex_prefix(d)) by {
        if d.len() >= 2 {
            assert(is_digit(d[1], 10));
        }
    }
    assert(!has_hex_suffix(d)) by {
        assert(is_digit(d[d.len() - 1], 10));
    }
}

/// Writing a length as a plain decimal number of bits and parsing what was
/// written gives the length back.
pub proof fn law_length_parses_from_canonical(length: Length)
    ensures
        Length::parse_spec(length.canonical()) == Ok::<Length, OffsetFault>(length),
{
    lemma_decimal_token(length.bits as nat);
}

/// Writing an offset that fits 64 bits as a signed plain decimal number of
/// bits and parsing what was written gives an offset of the same sign and
/// the same number of bits, split into whole bytes and a rest below eight.
pub proof fn law_offset_parses_from_canonical(offset: Offset)
    requires
        offset.magnitude() <= u64::MAX,
    ensures
        Offset::parse_spec(offset.canonical()) == Ok::<Offset, OffsetFault>(
            Offset {
                bytes: (offset.magnitude() / 8) as u64,
                bits: (offset.magnitude() % 8) as u32,
                is_negative: offset.is_negative,
            },
        ),
        Offset::parse_spec(offset.canonical())->Ok_0.signed_bits() == offset.signed_bits(),
        Offset::parse_spec(offset.canonical())->Ok_0.wf(),
{
    let n = offset.magnitude();
    let d = decimal_digits(n);
    lemma_decimal_token(n);
    if offset.is_negative {
        assert((seq!['-'] + d).drop_first() == d);
    }
}

} // verus!
