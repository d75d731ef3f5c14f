//! From an offset and a length to the bits of the file that are meant.

use crate::numeral::decimal_digits;
use crate::numeral::push_decimal;
use crate::token::Length;
use crate::token::Offset;
use vstd::prelude::*;

verus! {

/// The bits `start_bit..end_bit` of a file, counted from its first bit.
#[derive(Debug, Clone, Copy, PartialEq, Eq, Structural)]
pub struct ResolvedRange {
    pub start_bit: u64,
    pub end_bit: u64,
}

/// Why an offset and a length name no range of the file.
#[derive(Debug, Clone, Copy, PartialEq, Eq, Structural)]
pub enum RangeError {
    /// The length is zero.
    EmptyRange,
    /// The offset counts more bits back from the end than the file has.
    NegativeOffsetOutOfBounds { requested: u128, available: u64 },
    /// The range ends after the last bit of the file.
    RangeExceedsFile {
        needed_bit: u128,
        file_size_bytes: u64,
        file_size_bits: u64,
        excess_bits: u128,
    },
}

impl ResolvedRange {
    /// The range is not empty and lies inside a file of `file_size_bits` bits.
    pub open spec fn within(self, file_size_bits: u64) -> bool {
        self.start_bit < self.end_bit <= file_size_bits
    }

    /// How many bits the range holds.
    pub fn bit_count(&self) -> (count: u64)
        requires
            self.start_bit <= self.end_bit,
        ensures
            count == self.end_bit - self.start_bit,
    {
        self.end_bit - self.start_bit
    }
}

/// The first bit meant by `offset` in a file of `file_size_bits` bits, if
/// the offset does not reach back past the start of the file: the offset
/// itself, or the file's size less its magnitude when it counts from the
/// end. An offset of magnitude zero counts from the start whatever its sign.
pub open spec fn start_bit_spec(file_size_bits: u64, offset: Offset) -> Option<nat> {
    if offset.signed_bits() >= 0 {
        Some(offset.magnitude())
    } else if offset.magnitude() > file_size_bits {
        None
    } else {
        Some((file_size_bits - offset.magnitude()) as nat)
    }
}

/// The length is not zero, the offset names a first bit, and that many bits
/// from it on reach past the last bit of the file.
pub open spec fn ends_past_file(file_size_bits: u64, offset: Offset, length: Length) -> bool {
    length.bits != 0 && (start_bit_spec(file_size_bits, offset) matches Some(start) && start
        + length.bits > file_size_bits)
}

/// The length is not zero, the offset names a first bit, and that many bits
/// from it on end with the last bit of the file.
pub open spec fn ends_at_file_end(file_size_bits: u64, offset: Offset, length: Length) -> bool {
    length.bits != 0 && (start_bit_spec(file_size_bits, offset) matches Some(start) && start
        + length.bits == file_size_bits)
}

/// The range that `offset` and `length` name in a file of `file_size_bits`
/// bits, or the reason why they name none.
pub open spec fn resolve_spec(file_size_bits: u64, offset: Offset, length: Length) -> Result<
    ResolvedRange,
    RangeError,
> {
    if length.bits == 0 {
        Err(RangeError::EmptyRange)
    } else {
        match start_bit_spec(file_size_bits, offset) {
            None => Err(
                RangeError::NegativeOffsetOutOfBounds {
                    requested: offset.magnitude() as u128,
                    available: file_size_bits,
                },
            ),
            Some(start) => {
                let end = start + length.bits;
                if end > file_size_bits {
                    Err(
                        RangeError::RangeExceedsFile {
                            needed_bit: (end - 1) as u128,
                            file_size_bytes: file_size_bits / 8,
                            file_size_bits,
                            excess_bits: (end - file_size_bits) as u128,
                        },
                    )
                } else {
                    Ok(ResolvedRange { start_bit: start as u64, end_bit: end as u64 })
                }
            },
        }
    }
}

/// Resolves `offset` and `length` against a file of `file_size_bits` bits.
pub fn resolve(file_size_bits: u64, offset: &Offset, length: &Length) -> (r: Result<
    ResolvedRange,
    RangeError,
>)
    ensures
        r == resolve_spec(file_size_bits, *offset, *length),
        r matches Ok(range) ==> range.within(file_size_bits) && range.end_bit - range.start_bit
            == length.bits,
        (r matches Err(RangeError::RangeExceedsFile { .. })) <==> ends_past_file(
            file_size_bits,
            *offset,
            *length,
        ),
        r is Ok && r->Ok_0.end_bit == file_size_bits <==> ends_at_file_end(
            file_size_bits,
            *offset,
            *length,
        ),
{
    if length.bits == 0 {
        return Err(RangeError::EmptyRange);
    }
    let magnitude = offset.magnitude_bits();
    let start: u128 = if offset.is_negative && magnitude > 0 {
        if magnitude > file_size_bits as u128 {
            return Err(
                RangeError::NegativeOffsetOutOfBounds {
                    requested: magnitude,
                    available: file_size_bits,
                },
            );
        }
        file_size_bits as u128 - magnitude
    } else {
        magnitude
    };
    let end: u128 = start + length.bits as u128;
    if end > file_size_bits as u128 {
        return Err(
            RangeError::RangeExceedsFile {
                needed_bit: end - 1,
                file_size_bytes: file_size_bits / 8,
                file_size_bits,
                excess_bits: end - file_size_bits as u128,
            },
        );
    }
    Ok(ResolvedRange { start_bit: start as u64, end_bit: end as u64 })
}

impl RangeError {
    /// The one-line message for the error.
    pub open spec fn message(self) -> Seq<char> {
        match self {
            RangeError::EmptyRange => "Must read at least 1 bit"@,
            RangeError::NegativeOffsetOutOfBounds { requested, available } => "Negative offset -"@
                + decimal_digits(requested as nat) + " exceeds file size ("@ + decimal_digits(
                available as nat,
            ) + " bits)"@,
            RangeError::RangeExceedsFile {
                needed_bit,
                file_size_bytes,
                file_size_bits,
                excess_bits,
            } => "Requested range exceeds file size: need bit "@ + decimal_digits(
                needed_bit as nat,
            ) + ", but file is "@ + decimal_digits(file_size_bytes as nat) + " bytes ("@
                + decimal_digits(file_size_bits as nat) + " bits) \u{2014} "@ + decimal_digits(
                excess_bits as nat,
            ) + " bits past end"@,
        }
    }

    /// The one-line message for the error.
    pub fn to_string(&self) -> (text: String)
        ensures
            text@ == self.message(),
    {
        match self {
            RangeError::EmptyRange => "Must read at least 1 bit".to_owned(),
            RangeError::NegativeOffsetOutOfBounds { requested, available } => {
                let mut text = "Negative offset -".to_owned();
                push_decimal(&mut text, *requested);
                text.append(" exceeds file size (");
                push_decimal(&mut text, *available as u128);
                text.append(" bits)");
                text
            },
            RangeError::RangeExceedsFile {
                needed_bit,
                file_size_bytes,
                file_size_bits,
                excess_bits,
            } => {
                let mut text = "Requested range exceeds file size: need bit ".to_owned();
                push_decimal(&mut text, *needed_bit);
                text.append(", but file is ");
                push_decimal(&mut text, *file_size_bytes as u128);
                text.append(" bytes (");
                push_decimal(&mut text, *file_size_bits as u128);
                text.append(" bits) \u{2014} ");
                push_decimal(&mut text, *excess_bits);
                text.append(" bits past end");
                text
            },
        }
    }
}

/// An offset that counts back from the end by the whole size of the file
/// names the same range as an offset of zero, with the same length: the
/// range that starts at the first bit, or the same error.
pub proof fn law_full_negative_offset_is_zero(
    file_size_bits: u64,
    from_end: Offset,
    zero: Offset,
    length: Length,
)
    requires
        from_end.is_negative,
        from_end.magnitude() == file_size_bits,
        zero.magnitude() == 0,
    ensures
        resolve_spec(file_size_bits, from_end, length) == resolve_spec(
            file_size_bits,
            zero,
            length,
        ),
        resolve_spec(file_size_bits, from_end, length) matches Ok(range) ==> range.start_bit == 0,
        0 < length.bits <= file_size_bits ==> resolve_spec(file_size_bits, from_end, length)
            == Ok::<ResolvedRange, RangeError>(
            ResolvedRange { start_bit: 0, end_bit: length.bits },
        ),
{
}

/// For a length that is not zero and an offset that names a first bit, the
/// resolver fails with `RangeExceedsFile` exactly when the first bit plus
/// the length is more than the file holds, and a range that ends with the
/// last bit of the file is accepted.
pub proof fn law_range_boundary(file_size_bits: u64, offset: Offset, length: Length, start: nat)
    requires
        length.bits != 0,
        start_bit_spec(file_size_bits, offset) == Some(start),
    ensures
        (resolve_spec(file_size_bits, offset, length) matches Err(
            RangeError::RangeExceedsFile { .. },
        )) <==> start + length.bits > file_size_bits,
        resolve_spec(file_size_bits, offset, length) is Ok <==> start + length.bits
            <= file_size_bits,
        start + length.bits == file_size_bits ==> resolve_spec(file_size_bits, offset, length)
            == Ok::<ResolvedRange, RangeError>(
            ResolvedRange { start_bit: start as u64, end_bit: file_size_bits },
        ),
{
}

} // verus!
