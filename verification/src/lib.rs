//! Reads a field of any number of bits, at any bit offset, out of a buffer
//! of bytes, and shows it as a number or as text.
//!
//! A field is named by two tokens, an offset and a length (`token`), which
//! are resolved against the size of the buffer (`range`). Its bits are read
//! into one unbounded number, most or least significant bit first
//! (`extract`), and the number is shown in decimal, hexadecimal or binary,
//! as characters, or as a dump in rows (`render`). `pipeline` does all of
//! this in one call.

pub mod bignum;
pub mod bits;
pub mod extract;
pub mod numeral;
pub mod pipeline;
pub mod range;
pub mod render;
pub mod text;
pub mod token;
