//! The unbounded unsigned integers of `num_bigint`, as far as this library
//! uses them. Nothing here is proved about `num_bigint`: each function
//! states what the crate documents of the call it makes.

use crate::bits::be_bytes_value;
use crate::numeral::binary_digits;
use crate::numeral::decimal_digits;
use crate::numeral::hex_digits;
use num_bigint::BigUint;
use vstd::arithmetic::power2::lemma2_to64;
use vstd::arithmetic::power2::lemma_pow2_unfold;
use vstd::arithmetic::power2::pow2;
use vstd::prelude::*;

verus! {

/// `num_bigint::BigUint`, carried through as it is: nothing of its inside
/// is known here.
#[verifier::external_type_specification]
#[verifier::external_body]
pub struct ExBigUint(BigUint);

/// The number that a `BigUint` holds.
pub uninterp spec fn biguint_value(v: BigUint) -> nat;

/// The bitwise OR of two natural numbers.
pub open spec fn nat_bitor(a: nat, b: nat) -> nat
    decreases a + b,
{
    if a == 0 {
        b
    } else if b == 0 {
        a
    } else {
        2 * nat_bitor(a / 2, b / 2) + if a % 2 == 1 || b % 2 == 1 {
            1nat
        } else {
            0nat
        }
    }
}

/// `n` in base 256, most significant byte first, with no leading zero byte;
/// zero is the single byte 0.
pub open spec fn minimal_be_bytes(n: nat) -> Seq<u8>
    decreases n,
{
    if n < 256 {
        seq![n as u8]
    } else {
        minimal_be_bytes(n / 256).push((n % 256) as u8)
    }
}

/// `BigUint::ZERO`: the number zero.
#[verifier::external_body]
pub(crate) fn zero() -> (v: BigUint)
    ensures
        biguint_value(v) == 0,
{
    BigUint::ZERO
}

/// `BigUint::from` on a `u8`: the same number.
#[verifier::external_body]
pub(crate) fn from_u8(n: u8) -> (v: BigUint)
    ensures
        biguint_value(v) == n,
{
    BigUint::from(n)
}

/// `BigUint::from_bytes_be`: the number that the bytes write in base 256, the
/// first byte the most significant. No bytes give zero.
#[verifier::external_body]
pub(crate) fn from_bytes_be(bytes: &[u8]) -> (v: BigUint)
    ensures
        biguint_value(v) == be_bytes_value(bytes@),
{
    BigUint::from_bytes_be(bytes)
}

/// `BigUint`'s `<<` by a `usize`: the number times two to the power `shift`.
/// The bounds keep the result well inside what a vector can hold.
#[verifier::external_body]
pub(crate) fn shl(v: BigUint, shift: usize) -> (shifted: BigUint)
    requires
        biguint_value(v) <= u64::MAX,
        shift <= usize::MAX / 8,
    ensures
        biguint_value(shifted) == biguint_value(v) * pow2(shift as nat),
{
    v << shift
}

/// `BigUint`'s `|=`: afterwards `acc` holds the bitwise OR of what it held and `other`.
#[verifier::external_body]
pub(crate) fn bitor_assign(acc: &mut BigUint, other: BigUint)
    ensures
        biguint_value(*final(acc)) == nat_bitor(biguint_value(*old(acc)), biguint_value(other)),
{
    *acc |= other;
}

/// `BigUint::to_bytes_be`: the number in base 256, most significant byte
/// first, without leading zero bytes; one zero byte for zero.
#[verifier::external_body]
pub(crate) fn to_bytes_be(v: &BigUint) -> (bytes: Vec<u8>)
    ensures
        bytes@ == minimal_be_bytes(biguint_value(*v)),
{
    v.to_bytes_be()
}

/// `BigUint`'s `Display`: the number in decimal.
#[verifier::external_body]
pub(crate) fn to_decimal(v: &BigUint) -> (text: String)
    ensures
        text@ == decimal_digits(biguint_value(*v)),
{
    format!("{}", v)
}

/// `BigUint`'s `LowerHex` in its alternate form: `0x` and the number in
/// lower-case hexadecimal.
#[verifier::external_body]
pub(crate) fn to_prefixed_hex(v: &BigUint) -> (text: String)
    ensures
        text@ == "0x"@ + hex_digits(biguint_value(*v)),
{
    format!("{:#x}", v)
}

/// `BigUint`'s `Binary` in its alternate form: `0b` and the number in binary.
#[verifier::external_body]
pub(crate) fn to_prefixed_binary(v: &BigUint) -> (text: String)
    ensures
        text@ == "0b"@ + binary_digits(biguint_value(*v)),
{
    format!("{:#b}", v)
}

/// OR with a power of two that is above the number adds it.
pub proof fn lemma_bitor_higher_bit(n: nat, exponent: nat)
    requires
        n < pow2(exponent),
    ensures
        nat_bitor(n, pow2(exponent)) == n + pow2(exponent),
    decreases exponent,
{
    if exponent == 0 {
        lemma2_to64();
    } else if n != 0 {
        lemma_pow2_unfold(exponent);
        lemma_bitor_higher_bit(n / 2, (exponent - 1) as nat);
    }
}

/// The shortest big-endian bytes of what `bytes` is worth are `bytes`
/// without its leading zero bytes.
pub proof fn lemma_minimal_bytes_of_value(bytes: Seq<u8>)
    requires
        bytes.len() > 0,
    ensures
        minimal_be_bytes(be_bytes_value(bytes)).len() <= bytes.len(),
        Seq::new(
            (bytes.len() - minimal_be_bytes(be_bytes_value(bytes)).len()) as nat,
            |i: int| 0u8,
        ) + minimal_be_bytes(be_bytes_value(bytes)) == bytes,
    decreases bytes.len(),
{
    let head = bytes.drop_last();
    let last = bytes.last();
    let high = be_bytes_value(head);
    let value = be_bytes_value(bytes);
    let shortest = minimal_be_bytes(value);
    let zeros = Seq::new((bytes.len() - shortest.len()) as nat, |i: int| 0u8);
    if head.len() == 0 {
        assert(zeros + shortest =~= bytes);
    } else {
        lemma_minimal_bytes_of_value(head);
        let shortest_head = minimal_be_bytes(high);
        let zeros_head = Seq::new((head.len() - shortest_head.len()) as nat, |i: int| 0u8);
        if high == 0 {
            assert forall|j: int| 0 <= j < bytes.len() implies (zeros + shortest)[j]
                == bytes[j] by {
                if j < head.len() {
                    assert(head[j] == (zeros_head + shortest_head)[j]);
                }
            }
            assert(zeros + shortest =~= bytes);
        } else {
            assert(head.push(last) =~= bytes);
        }
    }
}

} // verus!
