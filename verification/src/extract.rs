//! Reading a span of bits out of a buffer into one unbounded number.

use crate::bignum::biguint_value;
use crate::bignum::bitor_assign;
use crate::bignum::from_bytes_be;
use crate::bignum::from_u8;
use crate::bignum::lemma_bitor_higher_bit;
use crate::bignum::shl;
use crate::bignum::zero;
use crate::bits::be_bits_value;
use crate::bits::be_bytes_value;
use crate::bits::bit_is_set;
use crate::bits::le_bits_value;
use crate::bits::le_bytes_value;
use crate::bits::lemma_aligned_span;
use crate::bits::lemma_be_bits_bound;
use crate::bits::lemma_be_bits_leading_zeros;
use crate::bits::lemma_be_bytes_as_bits;
use crate::bits::lemma_le_bits_bound;
use crate::bits::lemma_le_bits_push;
use crate::bits::lemma_le_bytes_as_bits;
use crate::bits::lsb0_bit;
use crate::bits::lsb0_span;
use crate::bits::max_buffer_len;
use crate::bits::msb0_bit;
use crate::bits::msb0_span;
use crate::bits::read_bit_lsb0;
use crate::bits::read_bit_msb0;
use num_bigint::BigUint;
use vstd::arithmetic::power2::pow2;
use vstd::prelude::*;

verus! {

/// Which bit of a span is the most significant, and with it how the bits of a
/// byte are numbered.
#[derive(Debug, Clone, Copy, PartialEq, Eq, Structural)]
pub enum BitOrder {
    /// Bits are numbered from the most significant bit of each byte, and the
    /// first bit of a span is its most significant.
    Msb,
    /// Bits are numbered from the least significant bit of each byte, and the
    /// first bit of a span is its least significant.
    Lsb,
}

/// The number that the bits `start..end` of `bytes` write, read one bit at a time.
pub open spec fn extract_spec(bytes: Seq<u8>, start: int, end: int, order: BitOrder) -> nat {
    match order {
        BitOrder::Msb => be_bits_value(msb0_span(bytes, start, end)),
        BitOrder::Lsb => le_bits_value(lsb0_span(bytes, start, end)),
    }
}

/// Setting one bit of a byte leaves the others as they were.
proof fn lemma_set_bit(byte: u8, place: u8, other: u8)
    requires
        place < 8,
        other < 8,
    ensures
        bit_is_set(byte | (1u8 << place), other) == (other == place || bit_is_set(byte, other)),
        !bit_is_set(0u8, other),
{
    assert(((byte | (1u8 << place)) >> other) & 1 == 1 <==> (other == place || (byte >> other) & 1
        == 1)) by (bit_vector)
        requires
            place < 8,
            other < 8,
    ;
    assert((0u8 >> other) & 1 == 0) by (bit_vector);
}

/// Reads the bits `start_bit..end_bit` of `buffer`, numbered from the most
/// significant bit of each byte, as a number whose most significant bit
/// comes first.
pub fn extract_bits_to_biguint(buffer: &[u8], start_bit: usize, end_bit: usize) -> (value: BigUint)
    requires
        buffer@.len() <= max_buffer_len(),
        start_bit <= end_bit <= buffer@.len() * 8,
    ensures
        biguint_value(value) == extract_spec(
            buffer@,
            start_bit as int,
            end_bit as int,
            BitOrder::Msb,
        ),
{
    let n = end_bit - start_bit;
    if n == 0 {
        return zero();
    }
    let num_bytes = (n + 7) / 8;
    let padding = num_bytes * 8 - n;
    let mut bytes: Vec<u8> = Vec::new();
    while bytes.len() < num_bytes
        invariant
            bytes@.len() <= num_bytes,
            forall|k: int| 0 <= k < bytes@.len() ==> bytes@[k] == 0u8,
        decreases num_bytes - bytes@.len(),
    {
        bytes.push(0u8);
    }
    let ghost span = msb0_span(buffer@, start_bit as int, end_bit as int);
    let mut i: usize = 0;
    proof {
        assert forall|j: int| 0 <= j < 8 * num_bytes implies !msb0_bit(bytes@, j) by {
            lemma_set_bit(0u8, 0u8, (7 - j % 8) as u8);
        }
    }
    while i < n
        invariant
            i <= n,
            n == end_bit - start_bit,
            buffer@.len() <= max_buffer_len(),
            end_bit <= buffer@.len() * 8,
            num_bytes * 8 == padding + n,
            padding < 8,
            bytes@.len() == num_bytes,
            span == msb0_span(buffer@, start_bit as int, end_bit as int),
            forall|j: int|
                0 <= j < 8 * num_bytes ==> #[trigger] msb0_bit(bytes@, j) == (padding <= j < padding
                    + i && span[j - padding]),
        decreases n - i,
    {
        if read_bit_msb0(buffer, start_bit + i) {
            let abs_pos = padding + i;
            let byte_idx = abs_pos / 8;
            let bit_idx: u8 = (7 - (abs_pos % 8)) as u8;
            let ghost before = bytes@;
            let updated: u8 = bytes[byte_idx] | (1u8 << bit_idx);
            bytes.set(byte_idx, updated);
            proof {
                assert forall|j: int| 0 <= j < 8 * num_bytes implies #[trigger] msb0_bit(bytes@, j)
                    == (padding <= j < padding + i + 1 && span[j - padding]) by {
                    if j / 8 == byte_idx as int {
                        lemma_set_bit(before[byte_idx as int], bit_idx, (7 - j % 8) as u8);
                    } else {
                        assert(bytes@[j / 8] == before[j / 8]);
                    }
                    assert(msb0_bit(before, j) == (padding <= j < padding + i && span[j
                        - padding]));
                }
            }
        }
        i += 1;
    }
    proof {
        let zeros = Seq::new(padding as nat, |k: int| false);
        assert(msb0_span(bytes@, 0, 8 * bytes@.len() as int) =~= zeros + span);
        lemma_be_bytes_as_bits(bytes@);
        lemma_be_bits_leading_zeros(padding as nat, span);
    }
    from_bytes_be(bytes.as_slice())
}

/// Reads the bits `start_bit..end_bit` of `buffer`, numbered from the least
/// significant bit of each byte, as a number whose least significant bit
/// comes first.
pub fn extract_bits_to_biguint_lsb(buffer: &[u8], start_bit: usize, end_bit: usize) -> (value:
    BigUint)
    requires
        buffer@.len() <= max_buffer_len(),
        start_bit <= end_bit <= buffer@.len() * 8,
    ensures
        biguint_value(value) == extract_spec(
            buffer@,
            start_bit as int,
            end_bit as int,
            BitOrder::Lsb,
        ),
{
    let n = end_bit - start_bit;
    let mut result = zero();
    let mut i: usize = 0;
    while i < n
        invariant
            i <= n,
            n == end_bit - start_bit,
            buffer@.len() <= max_buffer_len(),
            end_bit <= buffer@.len() * 8,
            biguint_value(result) == le_bits_value(
                lsb0_span(buffer@, start_bit as int, start_bit + i),
            ),
        decreases n - i,
    {
        let bit = read_bit_lsb0(buffer, start_bit + i);
        proof {
            let seen = lsb0_span(buffer@, start_bit as int, start_bit + i);
            assert(lsb0_span(buffer@, start_bit as int, start_bit + i + 1) =~= seen.push(bit));
            lemma_le_bits_push(seen, bit);
            lemma_le_bits_bound(seen);
            lemma_bitor_higher_bit(le_bits_value(seen), i as nat);
        }
        if bit {
            let one = from_u8(1u8);
            let weight = shl(one, i);
            assert(biguint_value(weight) == pow2(i as nat)) by {
                assert(1 * pow2(i as nat) == pow2(i as nat)) by (nonlinear_arith);
            }
            bitor_assign(&mut result, weight);
        }
        i += 1;
    }
    result
}

/// Reads the bits `start_bit..end_bit` of `buffer` in the given order.
pub fn extract(buffer: &[u8], start_bit: usize, end_bit: usize, order: BitOrder) -> (value: BigUint)
    requires
        buffer@.len() <= max_buffer_len(),
        start_bit <= end_bit <= buffer@.len() * 8,
    ensures
        biguint_value(value) == extract_spec(buffer@, start_bit as int, end_bit as int, order),
        biguint_value(value) < pow2((end_bit - start_bit) as nat),
{
    proof {
        lemma_be_bits_bound(msb0_span(buffer@, start_bit as int, end_bit as int));
        lemma_le_bits_bound(lsb0_span(buffer@, start_bit as int, end_bit as int));
    }
    match order {
        BitOrder::Msb => extract_bits_to_biguint(buffer, start_bit, end_bit),
        BitOrder::Lsb => extract_bits_to_biguint_lsb(buffer, start_bit, end_bit),
    }
}

/// For a span that starts between two bytes and holds whole bytes, reading
/// most significant bit first gives the big-endian number of the bytes it
/// covers, and reading least significant bit first gives their
/// little-endian number.
pub proof fn law_ordering_duality(bytes: Seq<u8>, start_bit: int, end_bit: int)
    requires
        0 <= start_bit <= end_bit <= 8 * bytes.len(),
        start_bit % 8 == 0,
        (end_bit - start_bit) % 8 == 0,
    ensures
        extract_spec(bytes, start_bit, end_bit, BitOrder::Msb) == be_bytes_value(
            bytes.subrange(start_bit / 8, end_bit / 8),
        ),
        extract_spec(bytes, start_bit, end_bit, BitOrder::Lsb) == le_bytes_value(
            bytes.subrange(start_bit / 8, end_bit / 8),
        ),
{
    let first_byte = start_bit / 8;
    let end_byte = end_bit / 8;
    let covered = bytes.subrange(first_byte, end_byte);
    lemma_aligned_span(bytes, first_byte, end_byte);
    lemma_be_bytes_as_bits(covered);
    lemma_le_bytes_as_bits(covered);
}

} // verus!
