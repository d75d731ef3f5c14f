//! From a buffer, an offset and a length to the text that shows the field.

use crate::bits::max_buffer_len;
use crate::extract::BitOrder;
use crate::extract::extract;
use crate::extract::extract_spec;
use crate::numeral::decimal_digits;
use crate::numeral::hex_digits;
use crate::numeral::push_decimal;
use crate::numeral::push_padded_hex;
use crate::numeral::zero_padded;
use crate::range::RangeError;
use crate::range::resolve;
use crate::range::resolve_spec;
use crate::range::ResolvedRange;
use crate::render::OutputFormat;
use crate::render::render;
use crate::render::render_spec;
use crate::text::push_char;
use crate::token::Length;
use crate::token::Offset;
use vstd::prelude::*;

verus! {

/// What `read_field` gives for a buffer, an offset and a length: the error
/// of the resolver, or the rendering of the bits that the range names.
pub open spec fn read_field_spec(
    buffer: Seq<u8>,
    offset: Offset,
    length: Length,
    order: BitOrder,
    format: OutputFormat,
    terminal_width: Option<u16>,
) -> Result<Seq<char>, RangeError> {
    match resolve_spec((8 * buffer.len()) as u64, offset, length) {
        Err(e) => Err(e),
        Ok(range) => Ok(
            render_spec(
                extract_spec(buffer, range.start_bit as int, range.end_bit as int, order),
                length.bits as usize,
                format,
                terminal_width,
                range.start_bit,
            ),
        ),
    }
}

/// Resolves `offset` and `length` against `buffer`, reads the bits in the
/// given order and shows them in the given format.
pub fn read_field(
    buffer: &[u8],
    offset: &Offset,
    length: &Length,
    order: BitOrder,
    format: OutputFormat,
    terminal_width: Option<u16>,
) -> (r: Result<String, RangeError>)
    requires
        buffer@.len() <= max_buffer_len(),
    ensures
        match r {
            Ok(text) => read_field_spec(buffer@, *offset, *length, order, format, terminal_width)
                == Ok::<Seq<char>, RangeError>(text@),
            Err(e) => read_field_spec(buffer@, *offset, *length, order, format, terminal_width)
                == Err::<Seq<char>, RangeError>(e),
        },
{
    let file_size_bits: u64 = buffer.len() as u64 * 8;
    match resolve(file_size_bits, offset, length) {
        Err(e) => Err(e),
        Ok(range) => {
            let value = extract(buffer, range.start_bit as usize, range.end_bit as usize, order);
            let bit_width = range.bit_count() as usize;
            Ok(render(&value, bit_width, format, terminal_width, range.start_bit))
        },
    }
}

/// The two lines that tell where a range lies: the size of the file, then
/// the length, the first bit in decimal and hexadecimal, the offset as
/// bytes and bits in decimal and hexadecimal, and the distance of the first
/// bit from the end of the file.
pub open spec fn verbose_report_spec(
    file_size_bits: u64,
    offset: Offset,
    length: Length,
    range: ResolvedRange,
) -> Seq<char> {
    "File: "@ + decimal_digits((file_size_bits / 8) as nat) + " bytes ("@ + decimal_digits(
        file_size_bits as nat,
    ) + " bits)\nReading "@ + decimal_digits(length.bits as nat) + " bits at offset "@
        + decimal_digits(range.start_bit as nat) + " (0x"@ + hex_digits(range.start_bit as nat)
        + ") = ("@ + decimal_digits(offset.bytes as nat) + " bytes, "@ + decimal_digits(
        offset.bits as nat,
    ) + " bits) = (0x"@ + hex_digits(offset.bytes as nat) + ":"@ + decimal_digits(
        offset.bits as nat,
    ) + " bits) from end = -"@ + decimal_digits((file_size_bits - range.start_bit) as nat)
        + seq!['\n']
}

/// The report on a range that was resolved against a file of `file_size_bits` bits.
pub fn verbose_report(
    file_size_bits: u64,
    offset: &Offset,
    length: &Length,
    range: &ResolvedRange,
) -> (text: String)
    requires
        range.start_bit <= file_size_bits,
    ensures
        text@ == verbose_report_spec(file_size_bits, *offset, *length, *range),
{
    let mut text = "File: ".to_owned();
    push_decimal(&mut text, (file_size_bits / 8) as u128);
    text.append(" bytes (");
    push_decimal(&mut text, file_size_bits as u128);
    text.append(" bits)\nReading ");
    push_decimal(&mut text, length.bits as u128);
    text.append(" bits at offset ");
    push_decimal(&mut text, range.start_bit as u128);
    text.append(" (0x");
    push_padded_hex(&mut text, range.start_bit as u128, 0);
    text.append(") = (");
    push_decimal(&mut text, offset.bytes as u128);
    text.append(" bytes, ");
    push_decimal(&mut text, offset.bits as u128);
    text.append(" bits) = (0x");
    push_padded_hex(&mut text, offset.bytes as u128, 0);
    text.append(":");
    push_decimal(&mut text, offset.bits as u128);
    text.append(" bits) from end = -");
    push_decimal(&mut text, (file_size_bits - range.start_bit) as u128);
    push_char(&mut text, '\n');
    text
}

} // verus!
