//! Bytes as strings of bits, in both numberings, and what such strings are
//! worth as numbers.

use bitvec::order::Lsb0;
use bitvec::order::Msb0;
use bitvec::slice::BitSlice;
use vstd::arithmetic::power2::lemma2_to64;
use vstd::arithmetic::power2::lemma_pow2_unfold;
use vstd::arithmetic::power2::pow2;
use vstd::prelude::*;

verus! {

/// The longest buffer whose bits can be numbered: a sixty-fourth of the
/// address space.
pub const MAX_BUFFER_LEN: usize = usize::MAX / 64;

/// The longest buffer whose bits can be numbered.
pub open spec fn max_buffer_len() -> nat {
    MAX_BUFFER_LEN as nat
}

/// The bit of `byte` that is worth `2^place` is set.
pub open spec fn bit_is_set(byte: u8, place: u8) -> bool {
    (byte >> place) & 1 == 1
}

/// Bit `i` of `bytes` where the bits of each byte are numbered from its
/// most significant bit down.
pub open spec fn msb0_bit(bytes: Seq<u8>, i: int) -> bool {
    bit_is_set(bytes[i / 8], (7 - i % 8) as u8)
}

/// Bit `i` of `bytes` where the bits of each byte are numbered from its
/// least significant bit up.
pub open spec fn lsb0_bit(bytes: Seq<u8>, i: int) -> bool {
    bit_is_set(bytes[i / 8], (i % 8) as u8)
}

/// The bits `start..end` of `bytes`, numbered from the most significant bit of each byte.
pub open spec fn msb0_span(bytes: Seq<u8>, start: int, end: int) -> Seq<bool> {
    Seq::new((end - start) as nat, |i: int| msb0_bit(bytes, start + i))
}

/// The bits `start..end` of `bytes`, numbered from the least significant bit of each byte.
pub open spec fn lsb0_span(bytes: Seq<u8>, start: int, end: int) -> Seq<bool> {
    Seq::new((end - start) as nat, |i: int| lsb0_bit(bytes, start + i))
}

/// One for a set bit, zero for a clear one.
pub open spec fn bit_weight(bit: bool) -> nat {
    if bit {
        1
    } else {
        0
    }
}

/// The number that `bits` writes in binary with its first bit the most significant.
pub open spec fn be_bits_value(bits: Seq<bool>) -> nat
    decreases bits.len(),
{
    if bits.len() == 0 {
        0
    } else {
        2 * be_bits_value(bits.drop_last()) + bit_weight(bits.last())
    }
}

/// The number that `bits` writes in binary with its first bit the least significant.
pub open spec fn le_bits_value(bits: Seq<bool>) -> nat
    decreases bits.len(),
{
    if bits.len() == 0 {
        0
    } else {
        bit_weight(bits[0]) + 2 * le_bits_value(bits.drop_first())
    }
}

/// The number that `bytes` writes in base 256 with its first byte the most significant.
pub open spec fn be_bytes_value(bytes: Seq<u8>) -> nat
    decreases bytes.len(),
{
    if bytes.len() == 0 {
        0
    } else {
        256 * be_bytes_value(bytes.drop_last()) + bytes.last() as nat
    }
}

/// The number that `bytes` writes in base 256 with its first byte the least significant.
pub open spec fn le_bytes_value(bytes: Seq<u8>) -> nat
    decreases bytes.len(),
{
    if bytes.len() == 0 {
        0
    } else {
        bytes[0] as nat + 256 * le_bytes_value(bytes.drop_first())
    }
}

/// `bitvec`'s `BitSlice::<u8, Msb0>::from_slice(buffer)[index]`: the bit that
/// index `index` selects when the bits of every byte are numbered from the most
/// significant down. The view is refused for buffers longer than
/// `max_buffer_len()`, and an index past the last bit panics.
#[verifier::external_body]
pub(crate) fn read_bit_msb0(buffer: &[u8], index: usize) -> (bit: bool)
    requires
        buffer@.len() <= max_buffer_len(),
        index < buffer@.len() * 8,
    ensures
        bit == msb0_bit(buffer@, index as int),
{
    BitSlice::<u8, Msb0>::from_slice(buffer)[index]
}

/// `bitvec`'s `BitSlice::<u8, Lsb0>::from_slice(buffer)[index]`: the bit that
/// index `index` selects when the bits of every byte are numbered from the least
/// significant up. The view is refused for buffers longer than
/// `max_buffer_len()`, and an index past the last bit panics.
#[verifier::external_body]
pub(crate) fn read_bit_lsb0(buffer: &[u8], index: usize) -> (bit: bool)
    requires
        buffer@.len() <= max_buffer_len(),
        index < buffer@.len() * 8,
    ensures
        bit == lsb0_bit(buffer@, index as int),
{
    BitSlice::<u8, Lsb0>::from_slice(buffer)[index]
}

/// A byte is the sum of its set bits, each at its place.
pub proof fn lemma_byte_is_sum_of_bits(byte: u8)
    ensures
        byte as nat == 128 * bit_weight(bit_is_set(byte, 7)) + 64 * bit_weight(bit_is_set(byte, 6))
            + 32 * bit_weight(bit_is_set(byte, 5)) + 16 * bit_weight(bit_is_set(byte, 4)) + 8
            * bit_weight(bit_is_set(byte, 3)) + 4 * bit_weight(bit_is_set(byte, 2)) + 2
            * bit_weight(bit_is_set(byte, 1)) + bit_weight(bit_is_set(byte, 0)),
{
    assert(byte == 128 * ((byte >> 7) & 1) + 64 * ((byte >> 6) & 1) + 32 * ((byte >> 5) & 1) + 16
        * ((byte >> 4) & 1) + 8 * ((byte >> 3) & 1) + 4 * ((byte >> 2) & 1) + 2 * ((byte >> 1) & 1)
        + ((byte >> 0) & 1)) by (bit_vector);
    assert(((byte >> 7) & 1 == 0 || (byte >> 7) & 1 == 1) && ((byte >> 6) & 1 == 0 || (byte >> 6)
        & 1 == 1) && ((byte >> 5) & 1 == 0 || (byte >> 5) & 1 == 1) && ((byte >> 4) & 1 == 0 || (
    byte >> 4) & 1 == 1) && ((byte >> 3) & 1 == 0 || (byte >> 3) & 1 == 1) && ((byte >> 2) & 1 == 0
        || (byte >> 2) & 1 == 1) && ((byte >> 1) & 1 == 0 || (byte >> 1) & 1 == 1) && ((byte >> 0)
        & 1 == 0 || (byte >> 0) & 1 == 1)) by (bit_vector);
}

/// Putting a bit after a little-endian string adds the bit at the next power of two.
pub proof fn lemma_le_bits_push(bits: Seq<bool>, bit: bool)
    ensures
        le_bits_value(bits.push(bit)) == le_bits_value(bits) + if bit {
            pow2(bits.len())
        } else {
            0
        },
    decreases bits.len(),
{
    let longer = bits.push(bit);
    if bits.len() == 0 {
        assert(le_bits_value(longer) == bit_weight(bit) + 2 * le_bits_value(longer.drop_first()));
        lemma2_to64();
    } else {
        let rest = bits.drop_first();
        assert(longer.drop_first() == rest.push(bit));
        lemma_le_bits_push(rest, bit);
        lemma_pow2_unfold(bits.len());
    }
}

/// A little-endian string of `n` bits is worth less than `2^n`.
pub proof fn lemma_le_bits_bound(bits: Seq<bool>)
    ensures
        le_bits_value(bits) < pow2(bits.len()),
    decreases bits.len(),
{
    if bits.len() == 0 {
        lemma2_to64();
    } else {
        lemma_le_bits_bound(bits.drop_first());
        lemma_pow2_unfold(bits.len());
    }
}

/// A big-endian string of `n` bits is worth less than `2^n`.
pub proof fn lemma_be_bits_bound(bits: Seq<bool>)
    ensures
        be_bits_value(bits) < pow2(bits.len()),
    decreases bits.len(),
{
    if bits.len() == 0 {
        lemma2_to64();
    } else {
        lemma_be_bits_bound(bits.drop_last());
        lemma_pow2_unfold(bits.len());
    }
}

/// Clear bits before a big-endian string do not change its worth.
pub proof fn lemma_be_bits_leading_zeros(zeros: nat, bits: Seq<bool>)
    ensures
        be_bits_value(Seq::new(zeros, |i: int| false) + bits) == be_bits_value(bits),
    decreases bits.len(),
{
    let padding = Seq::new(zeros, |i: int| false);
    if bits.len() == 0 {
        lemma_be_bits_all_clear(zeros);
    } else {
        assert((padding + bits).drop_last() == padding + bits.drop_last());
        lemma_be_bits_leading_zeros(zeros, bits.drop_last());
    }
}

/// A string of clear bits is worth nothing.
pub proof fn lemma_be_bits_all_clear(count: nat)
    ensures
        be_bits_value(Seq::new(count, |i: int| false)) == 0,
    decreases count,
{
    if count > 0 {
        assert(Seq::new(count, |i: int| false).drop_last() == Seq::new(
            (count - 1) as nat,
            |i: int| false,
        ));
        lemma_be_bits_all_clear((count - 1) as nat);
    }
}

/// The worth of the first `k` bits of a big-endian string, from the worth of one bit fewer.
pub proof fn lemma_be_bits_take(bits: Seq<bool>, k: int)
    requires
        0 < k <= bits.len(),
    ensures
        be_bits_value(bits.take(k)) == 2 * be_bits_value(bits.take(k - 1)) + bit_weight(
            bits[k - 1],
        ),
{
    assert(bits.take(k).drop_last() == bits.take(k - 1));
}

/// The worth of a little-endian string from bit `k` on, from the worth of one bit fewer.
pub proof fn lemma_le_bits_skip(bits: Seq<bool>, k: int)
    requires
        0 <= k < bits.len(),
    ensures
        le_bits_value(bits.skip(k)) == bit_weight(bits[k]) + 2 * le_bits_value(bits.skip(k + 1)),
{
    assert(bits.skip(k).drop_first() == bits.skip(k + 1));
}

/// The worth of a big-endian string from the worth of all but its last eight bits.
pub proof fn lemma_be_bits_last_eight(bits: Seq<bool>)
    requires
        bits.len() >= 8,
    ensures
        be_bits_value(bits) == 256 * be_bits_value(bits.take(bits.len() - 8)) + 128 * bit_weight(
            bits[bits.len() - 8],
        ) + 64 * bit_weight(bits[bits.len() - 7]) + 32 * bit_weight(bits[bits.len() - 6]) + 16
            * bit_weight(bits[bits.len() - 5]) + 8 * bit_weight(bits[bits.len() - 4]) + 4
            * bit_weight(bits[bits.len() - 3]) + 2 * bit_weight(bits[bits.len() - 2]) + bit_weight(
            bits[bits.len() - 1],
        ),
{
    let n: int = bits.len() - 8;
    lemma_be_bits_take(bits, n + 1);
    lemma_be_bits_take(bits, n + 2);
    lemma_be_bits_take(bits, n + 3);
    lemma_be_bits_take(bits, n + 4);
    lemma_be_bits_take(bits, n + 5);
    lemma_be_bits_take(bits, n + 6);
    lemma_be_bits_take(bits, n + 7);
    lemma_be_bits_take(bits, n + 8);
}

/// The worth of a little-endian string from the worth of all but its first eight bits.
pub proof fn lemma_le_bits_first_eight(bits: Seq<bool>)
    requires
        bits.len() >= 8,
    ensures
        le_bits_value(bits) == bit_weight(bits[0]) + 2 * bit_weight(bits[1]) + 4 * bit_weight(
            bits[2],
        ) + 8 * bit_weight(bits[3]) + 16 * bit_weight(bits[4]) + 32 * bit_weight(bits[5]) + 64
            * bit_weight(bits[6]) + 128 * bit_weight(bits[7]) + 256 * le_bits_value(bits.skip(8)),
{
    lemma_le_bits_skip(bits, 0);
    lemma_le_bits_skip(bits, 1);
    lemma_le_bits_skip(bits, 2);
    lemma_le_bits_skip(bits, 3);
    lemma_le_bits_skip(bits, 4);
    lemma_le_bits_skip(bits, 5);
    lemma_le_bits_skip(bits, 6);
    lemma_le_bits_skip(bits, 7);
}

/// The bits of whole bytes, most significant first, are worth what the bytes
/// are worth in big-endian order.
pub proof fn lemma_be_bytes_as_bits(bytes: Seq<u8>)
    ensures
        be_bits_value(msb0_span(bytes, 0, 8 * bytes.len() as int)) == be_bytes_value(bytes),
    decreases bytes.len(),
{
    if bytes.len() > 0 {
        let head = bytes.drop_last();
        let all = msb0_span(bytes, 0, 8 * bytes.len() as int);
        let n: int = 8 * head.len() as int;
        lemma_be_bytes_as_bits(head);
        assert(all.take(n) == msb0_span(head, 0, n));
        lemma_be_bits_last_eight(all);
        assert forall|k: int| 0 <= k < 8 implies #[trigger] all[n + k] == bit_is_set(
            bytes.last(),
            (7 - k) as u8,
        ) by {
            assert(all[n + k] == msb0_bit(bytes, n + k));
        }
        assert(all[n + 0] == bit_is_set(bytes.last(), 7));
        assert(all[n + 1] == bit_is_set(bytes.last(), 6));
        assert(all[n + 2] == bit_is_set(bytes.last(), 5));
        assert(all[n + 3] == bit_is_set(bytes.last(), 4));
        assert(all[n + 4] == bit_is_set(bytes.last(), 3));
        assert(all[n + 5] == bit_is_set(bytes.last(), 2));
        assert(all[n + 6] == bit_is_set(bytes.last(), 1));
        assert(all[n + 7] == bit_is_set(bytes.last(), 0));
        lemma_byte_is_sum_of_bits(bytes.last());
    }
}

/// The bits of whole bytes, least significant first, are worth what the bytes
/// are worth in little-endian order.
pub proof fn lemma_le_bytes_as_bits(bytes: Seq<u8>)
    ensures
        le_bits_value(lsb0_span(bytes, 0, 8 * bytes.len() as int)) == le_bytes_value(bytes),
    decreases bytes.len(),
{
    if bytes.len() > 0 {
        let tail = bytes.drop_first();
        let all = lsb0_span(bytes, 0, 8 * bytes.len() as int);
        lemma_le_bytes_as_bits(tail);
        assert(all.skip(8) == lsb0_span(tail, 0, 8 * tail.len() as int)) by {
            assert forall|i: int| 0 <= i < 8 * tail.len() as int implies all.skip(8)[i]
                == lsb0_bit(tail, i) by {
                assert(all.skip(8)[i] == lsb0_bit(bytes, 8 + i));
                assert(bytes[(8 + i) / 8] == tail[i / 8]);
            }
        }
        lemma_le_bits_first_eight(all);
        assert forall|k: int| 0 <= k < 8 implies #[trigger] all[k] == bit_is_set(
            bytes[0],
            k as u8,
        ) by {
            assert(all[k] == lsb0_bit(bytes, k));
        }
        lemma_byte_is_sum_of_bits(bytes[0]);
    }
}

/// A span that starts and ends between bytes holds the bits of the bytes it covers.
pub proof fn lemma_aligned_span(bytes: Seq<u8>, first_byte: int, end_byte: int)
    requires
        0 <= first_byte <= end_byte <= bytes.len(),
    ensures
        msb0_span(bytes, 8 * first_byte, 8 * end_byte) == msb0_span(
            bytes.subrange(first_byte, end_byte),
            0,
            8 * (end_byte - first_byte),
        ),
        lsb0_span(bytes, 8 * first_byte, 8 * end_byte) == lsb0_span(
            bytes.subrange(first_byte, end_byte),
            0,
            8 * (end_byte - first_byte),
        ),
{
    let covered = bytes.subrange(first_byte, end_byte);
    assert forall|i: int| 0 <= i < 8 * (end_byte - first_byte) implies msb0_bit(
        bytes,
        8 * first_byte + i,
    ) == msb0_bit(covered, i) && lsb0_bit(bytes, 8 * first_byte + i) == lsb0_bit(covered, i) by {
        assert((8 * first_byte + i) / 8 == first_byte + i / 8);
        assert((8 * first_byte + i) % 8 == i % 8);
        assert(covered[i / 8] == bytes[first_byte + i / 8]);
    }
    assert(msb0_span(bytes, 8 * first_byte, 8 * end_byte) =~= msb0_span(
        covered,
        0,
        8 * (end_byte - first_byte),
    ));
    assert(lsb0_span(bytes, 8 * first_byte, 8 * end_byte) =~= lsb0_span(
        covered,
        0,
        8 * (end_byte - first_byte),
    ));
}

} // verus!
