//! Positional numerals: what a string of digits is worth, and how a number is
//! written in decimal, hexadecimal and binary.

use crate::text::lemma_run_len_is;
use crate::text::push_char;
use crate::text::push_repeated;
use crate::text::run_len;
use vstd::arithmetic::power2::lemma2_to64;
use vstd::arithmetic::power2::lemma_pow2_adds;
use vstd::arithmetic::power2::lemma_pow2_unfold;
use vstd::arithmetic::power2::pow2;
use vstd::prelude::*;
use vstd::slice::slice_subrange;

verus! {

/// Why a string is not an unsigned numeral that fits the target.
#[derive(Debug, Clone, Copy, PartialEq, Eq, Structural)]
pub enum NumeralError {
    /// The string is empty.
    Empty,
    /// A character is not a digit of the radix, or the string is a lone `+`.
    InvalidDigit,
    /// The digits are worth more than the target holds.
    TooLarge,
}

impl NumeralError {
    /// The wording of each failure.
    pub open spec fn message(self) -> Seq<char> {
        match self {
            NumeralError::Empty => "cannot parse integer from empty string"@,
            NumeralError::InvalidDigit => "invalid digit found in string"@,
            NumeralError::TooLarge => "number too large to fit in target type"@,
        }
    }

    /// The wording of the failure.
    pub fn text(&self) -> (s: &'static str)
        ensures
            s@ == self.message(),
    {
        match self {
            NumeralError::Empty => "cannot parse integer from empty string",
            NumeralError::InvalidDigit => "invalid digit found in string",
            NumeralError::TooLarge => "number too large to fit in target type",
        }
    }
}

/// What `c` is worth as a digit: `0`-`9`, then the letters of either case from 10 up.
pub open spec fn digit_value(c: char) -> Option<nat> {
    if '0' <= c <= '9' {
        Some((c as u32 - '0' as u32) as nat)
    } else if 'a' <= c <= 'z' {
        Some((c as u32 - 'a' as u32 + 10) as nat)
    } else if 'A' <= c <= 'Z' {
        Some((c as u32 - 'A' as u32 + 10) as nat)
    } else {
        None
    }
}

/// `c` is a digit of the given radix.
pub open spec fn is_digit(c: char, radix: nat) -> bool {
    digit_value(c) matches Some(d) && d < radix
}

/// The worth of a digit, 0 for any other character.
pub open spec fn digit_or_zero(c: char) -> nat {
    match digit_value(c) {
        Some(d) => d,
        None => 0,
    }
}

/// The number that the digits `s` write in the given radix, most significant first.
pub open spec fn digits_value(s: Seq<char>, radix: nat) -> nat
    decreases s.len(),
{
    if s.len() == 0 {
        0
    } else {
        digits_value(s.drop_last(), radix) * radix + digit_or_zero(s.last())
    }
}

/// How many characters at the start of `s` are digits of the radix.
pub open spec fn digit_run_len(s: Seq<char>, radix: nat) -> nat {
    run_len(s, |c: char| is_digit(c, radix))
}

/// `s` without the one `+` that may stand before the digits.
pub open spec fn unsigned_body(s: Seq<char>) -> Seq<char> {
    if s.len() > 0 && s[0] == '+' {
        s.drop_first()
    } else {
        s
    }
}

/// `s` is an optional `+` and then one or more digits of the radix, nothing else.
pub open spec fn is_numeral(s: Seq<char>, radix: nat) -> bool {
    let body = unsigned_body(s);
    body.len() > 0 && digit_run_len(body, radix) == body.len()
}

/// The number that the numeral `s` writes.
pub open spec fn numeral_value(s: Seq<char>, radix: nat) -> nat {
    digits_value(unsigned_body(s), radix)
}

/// Reading `s` as an unsigned numeral no greater than `max`.
///
/// The string is scanned from the left and the first thing that goes wrong
/// decides: a run of digits that already exceeds `max` is `TooLarge` even if
/// a stray character follows it.
pub open spec fn parse_unsigned_spec(s: Seq<char>, radix: nat, max: nat) -> Result<
    nat,
    NumeralError,
> {
    let body = unsigned_body(s);
    let run = digit_run_len(body, radix) as int;
    if s.len() == 0 {
        Err(NumeralError::Empty)
    } else if body.len() == 0 {
        Err(NumeralError::InvalidDigit)
    } else if digits_value(body.take(run), radix) > max {
        Err(NumeralError::TooLarge)
    } else if run < body.len() {
        Err(NumeralError::InvalidDigit)
    } else {
        Ok(digits_value(body, radix))
    }
}

/// The character that writes the digit `d`, in lower case from ten up.
pub open spec fn digit_char(d: nat) -> char {
    if d < 10 {
        ('0' as u8 + d) as u8 as char
    } else {
        ('a' as u8 + d - 10) as u8 as char
    }
}

/// `n` written in the given radix with no leading zero; zero is `0`.
pub open spec fn radix_digits(n: nat, radix: nat) -> Seq<char>
    decreases n,
    via radix_digits_decreases
{
    if n < radix || radix < 2 {
        seq![digit_char(n)]
    } else {
        radix_digits(n / radix, radix).push(digit_char(n % radix))
    }
}

#[via_fn]
proof fn radix_digits_decreases(n: nat, radix: nat) {
    if n >= radix && radix >= 2 {
        assert(n / radix < n) by (nonlinear_arith)
            requires
                n >= radix,
                radix >= 2,
        ;
    }
}

/// `n` in decimal.
pub open spec fn decimal_digits(n: nat) -> Seq<char> {
    radix_digits(n, 10)
}

/// `n` in lower-case hexadecimal.
pub open spec fn hex_digits(n: nat) -> Seq<char> {
    radix_digits(n, 16)
}

/// `n` in binary.
pub open spec fn binary_digits(n: nat) -> Seq<char> {
    radix_digits(n, 2)
}

/// `digits` with zeros put before it until it is at least `width` long.
pub open spec fn zero_padded(digits: Seq<char>, width: nat) -> Seq<char> {
    if digits.len() >= width {
        digits
    } else {
        Seq::new((width - digits.len()) as nat, |i: int| '0') + digits
    }
}

/// The character that writes a digit is worth the digit.
pub proof fn lemma_digit_char_round_trip(d: nat)
    requires
        d < 36,
    ensures
        digit_value(digit_char(d)) == Some(d),
        digit_or_zero(digit_char(d)) == d,
{
}

/// A longer prefix is never worth less.
pub proof fn lemma_digits_value_grows(s: Seq<char>, radix: nat, j: int, k: int)
    requires
        radix >= 1,
        0 <= j <= k <= s.len(),
    ensures
        digits_value(s.take(j), radix) <= digits_value(s.take(k), radix),
    decreases k - j,
{
    if j < k {
        lemma_digits_value_grows(s, radix, j, k - 1);
        let longer = s.take(k);
        assert(longer.drop_last() == s.take(k - 1));
        let shorter = digits_value(s.take(k - 1), radix);
        assert(shorter <= shorter * radix) by (nonlinear_arith)
            requires
                radix >= 1,
        ;
    }
}

/// Writing a number and reading the digits back gives the number.
pub proof fn lemma_radix_digits_value(n: nat, radix: nat)
    requires
        2 <= radix <= 36,
    ensures
        radix_digits(n, radix).len() >= 1,
        digit_run_len(radix_digits(n, radix), radix) == radix_digits(n, radix).len(),
        digits_value(radix_digits(n, radix), radix) == n,
        forall|j: int|
            0 <= j < radix_digits(n, radix).len() ==> is_digit(
                #[trigger] radix_digits(n, radix)[j],
                radix,
            ),
        radix_digits(n, radix)[0] != '+',
    decreases n,
{
    let s = radix_digits(n, radix);
    if n < radix {
        lemma_digit_char_round_trip(n);
        assert(digits_value(s.drop_last(), radix) == 0);
        assert(0 * radix == 0) by (nonlinear_arith);
    } else {
        let high = radix_digits(n / radix, radix);
        lemma_radix_digits_value(n / radix, radix);
        lemma_digit_char_round_trip(n % radix);
        assert(s.drop_last() == high);
        assert((n / radix) * radix + n % radix == n) by (nonlinear_arith)
            requires
                radix >= 2,
        ;
        assert forall|j: int| 0 <= j < s.len() implies is_digit(#[trigger] s[j], radix) by {
            if j < high.len() {
                assert(s[j] == high[j]);
            }
        }
    }
    lemma_run_len_is(s, |c: char| is_digit(c, radix), s.len() as int);
}

/// Reading back what `radix_digits` wrote succeeds with the number written,
/// whenever the number is within the bound.
pub proof fn lemma_parse_radix_digits(n: nat, radix: nat, max: nat)
    requires
        2 <= radix <= 36,
        n <= max,
    ensures
        parse_unsigned_spec(radix_digits(n, radix), radix, max) == Ok::<nat, NumeralError>(n),
        is_numeral(radix_digits(n, radix), radix),
        numeral_value(radix_digits(n, radix), radix) == n,
{
    let s = radix_digits(n, radix);
    lemma_radix_digits_value(n, radix);
    assert(s.take(s.len() as int) == s);
}

/// The worth of `c` as a digit, if it is one.
pub fn to_digit(c: char) -> (r: Option<u8>)
    ensures
        match r {
            Some(d) => digit_value(c) == Some(d as nat) && d < 36,
            None => digit_value(c).is_none(),
        },
{
    if c >= '0' && c <= '9' {
        Some((c as u32 - '0' as u32) as u8)
    } else if c >= 'a' && c <= 'z' {
        Some((c as u32 - 'a' as u32 + 10) as u8)
    } else if c >= 'A' && c <= 'Z' {
        Some((c as u32 - 'A' as u32 + 10) as u8)
    } else {
        None
    }
}

/// Counts the digits of the radix that `s` starts with.
pub fn digit_run(s: &[char], radix: u32) -> (run: usize)
    ensures
        run == digit_run_len(s@, radix as nat),
        run <= s@.len(),
{
    let mut i: usize = 0;
    while i < s.len()
        invariant
            i <= s@.len(),
            forall|j: int| 0 <= j < i ==> is_digit(#[trigger] s@[j], radix as nat),
        ensures
            i <= s@.len(),
            forall|j: int| 0 <= j < i ==> is_digit(#[trigger] s@[j], radix as nat),
            i == s@.len() || !is_digit(s@[i as int], radix as nat),
        decreases s@.len() - i,
    {
        match to_digit(s[i]) {
            Some(d) => {
                if d as u32 >= radix {
                    break ;
                }
            },
            None => {
                break ;
            },
        }
        i += 1;
    }
    proof {
        lemma_run_len_is(s@, |c: char| is_digit(c, radix as nat), i as int);
    }
    i
}

/// The number that the first `count` characters of `s` write, unless it exceeds `max`.
pub fn bounded_digits_value(s: &[char], count: usize, radix: u32, max: u64) -> (r: Option<u64>)
    requires
        1 <= radix <= 36,
        count <= s@.len(),
    ensures
        match r {
            Some(v) => v == digits_value(s@.take(count as int), radix as nat) && v <= max,
            None => digits_value(s@.take(count as int), radix as nat) > max,
        },
{
    let mut acc: u64 = 0;
    let mut i: usize = 0;
    while i < count
        invariant
            1 <= radix <= 36,
            i <= count <= s@.len(),
            acc == digits_value(s@.take(i as int), radix as nat),
            acc <= max,
        decreases count - i,
    {
        let d: u8 = match to_digit(s[i]) {
            Some(d) => d,
            None => 0,
        };
        assert(acc as u128 * radix as u128 <= 36 * 0xffff_ffff_ffff_ffff) by (nonlinear_arith)
            requires
                acc <= 0xffff_ffff_ffff_ffff,
                radix <= 36,
        ;
        let next: u128 = acc as u128 * radix as u128 + d as u128;
        proof {
            let longer = s@.take(i + 1);
            assert(longer.drop_last() == s@.take(i as int));
            lemma_digits_value_grows(s@, radix as nat, i + 1, count as int);
        }
        if next > max as u128 {
            return None;
        }
        acc = next as u64;
        i += 1;
    }
    Some(acc)
}

/// Reads `s` as an unsigned numeral of the given radix that is no greater than `max`.
pub fn parse_unsigned(s: &[char], radix: u32, max: u64) -> (r: Result<u64, NumeralError>)
    requires
        2 <= radix <= 36,
    ensures
        match r {
            Ok(v) => parse_unsigned_spec(s@, radix as nat, max as nat) == Ok::<nat, NumeralError>(
                v as nat,
            ),
            Err(e) => parse_unsigned_spec(s@, radix as nat, max as nat) == Err::<nat, NumeralError>(
                e,
            ),
        },
{
    if s.len() == 0 {
        return Err(NumeralError::Empty);
    }
    let start: usize = if s[0] == '+' {
        1
    } else {
        0
    };
    let body = slice_subrange(s, start, s.len());
    assert(body@ == unsigned_body(s@));
    if body.len() == 0 {
        return Err(NumeralError::InvalidDigit);
    }
    let run = digit_run(body, radix);
    match bounded_digits_value(body, run, radix, max) {
        None => Err(NumeralError::TooLarge),
        Some(v) => {
            if run < body.len() {
                Err(NumeralError::InvalidDigit)
            } else {
                assert(body@.take(run as int) == body@);
                Ok(v)
            }
        },
    }
}

/// The character for the digit `d`.
pub fn digit_to_char(d: u8) -> (c: char)
    requires
        d < 36,
    ensures
        c == digit_char(d as nat),
{
    if d < 10 {
        (48u8 + d) as char
    } else {
        (87u8 + d) as char
    }
}

/// How many digits `n` takes in the given radix.
pub fn radix_len(n: u128, radix: u32) -> (len: usize)
    requires
        2 <= radix <= 36,
    ensures
        len == radix_digits(n as nat, radix as nat).len(),
        1 <= len <= 128,
{
    let mut rest: u128 = n;
    let mut len: usize = 1;
    proof {
        lemma_radix_digits_len_bound(n as nat, radix as nat);
    }
    while rest >= radix as u128
        invariant
            2 <= radix <= 36,
            1 <= len,
            radix_digits(n as nat, radix as nat).len() == radix_digits(
                rest as nat,
                radix as nat,
            ).len() + len - 1,
            radix_digits(n as nat, radix as nat).len() <= 128,
        decreases rest,
    {
        rest = rest / radix as u128;
        len += 1;
    }
    len
}

/// Appends `n`, written in the given radix, to `out`.
pub fn push_radix_digits(out: &mut String, n: u128, radix: u32)
    requires
        2 <= radix <= 36,
    ensures
        final(out)@ == old(out)@ + radix_digits(n as nat, radix as nat),
    decreases n,
{
    if n >= radix as u128 {
        assert(n / (radix as u128) < n) by (nonlinear_arith)
            requires
                n >= radix,
                radix >= 2,
        ;
        push_radix_digits(out, n / radix as u128, radix);
    }
    let low: u8 = (n % radix as u128) as u8;
    push_char(out, digit_to_char(low));
    proof {
        if n < radix {
            assert(n % (radix as u128) == n) by (nonlinear_arith)
                requires
                    n < radix,
            ;
        }
    }
}

/// Appends `n` in decimal to `out`.
pub fn push_decimal(out: &mut String, n: u128)
    ensures
        final(out)@ == old(out)@ + decimal_digits(n as nat),
{
    push_radix_digits(out, n, 10)
}

/// Appends `n` in lower-case hexadecimal to `out`, with zeros before it up to `width` digits.
pub fn push_padded_hex(out: &mut String, n: u128, width: usize)
    ensures
        final(out)@ == old(out)@ + zero_padded(hex_digits(n as nat), width as nat),
{
    let len = radix_len(n, 16);
    if len < width {
        push_repeated(out, '0', width - len);
    }
    push_radix_digits(out, n, 16);
}

/// A number below 2^128 has at most 128 digits, whatever the radix.
pub proof fn lemma_radix_digits_len_bound(n: nat, radix: nat)
    requires
        2 <= radix,
        n < 0x1_0000_0000_0000_0000_0000_0000_0000_0000,
    ensures
        radix_digits(n, radix).len() <= 128,
{
    lemma2_to64();
    lemma_pow2_adds(64, 64);
    lemma_radix_digits_len_log(n, radix, 128);
}

/// A number below `2^bits` has at most `bits` digits, whatever the radix.
proof fn lemma_radix_digits_len_log(n: nat, radix: nat, bits: nat)
    requires
        2 <= radix,
        bits >= 1,
        n < pow2(bits),
    ensures
        radix_digits(n, radix).len() <= bits,
    decreases n,
{
    if n >= radix {
        lemma_pow2_unfold(bits);
        assert(bits >= 2) by {
            if bits == 1 {
                lemma2_to64();
            }
        }
        let half = pow2((bits - 1) as nat);
        assert(n / radix < half && n / radix < n) by (nonlinear_arith)
            requires
                n < 2 * half,
                n >= radix,
                radix >= 2,
        ;
        lemma_radix_digits_len_log(n / radix, radix, (bits - 1) as nat);
    }
}

} // verus!
