//! Fields of the header of a 64-bit Mach-O executable for ARM64.

use itty_bitty::extract::BitOrder;
use itty_bitty::pipeline::read_field;
use itty_bitty::render::OutputFormat;
use itty_bitty::token::{parse_length, parse_offset};

/// Runs the whole pipeline on `data` with the offset and the length written
/// as decimal tokens, and gives the trimmed text, or nothing on an error.
fn read_bits(data: &[u8], offset: i64, bits: usize, format: &str, order: &str) -> String {
    let offset = match parse_offset(&offset.to_string()) {
        Ok(offset) => offset,
        Err(_) => return String::new(),
    };
    let length = match parse_length(&bits.to_string()) {
        Ok(length) => length,
        Err(_) => return String::new(),
    };
    let order = if order == "lsb" { BitOrder::Lsb } else { BitOrder::Msb };
    let format = match format {
        "decimal" => OutputFormat::Decimal,
        "binary" => OutputFormat::Binary,
        "ascii" => OutputFormat::Ascii,
        "hex-ascii" => OutputFormat::HexAscii,
        _ => OutputFormat::Hex,
    };
    match read_field(data, &offset, &length, order, format, None) {
        Ok(text) => text.trim().to_string(),
        Err(_) => String::new(),
    }
}

fn read_bits_hex(data: &[u8], offset: i64, bits: usize) -> String {
    read_bits(data, offset, bits, "hex", "msb")
}

fn read_bits_decimal_lsb(data: &[u8], offset: i64, bits: usize) -> u64 {
    read_bits(data, offset, bits, "decimal", "lsb").parse().unwrap_or(0)
}

/// The 32 bytes of a `mach_header_64`: magic, CPU type and subtype, file
/// type, number and size of the load commands, flags, and a reserved word.
const MACHO_HEADER: [u8; 32] = [
    0xcf, 0xfa, 0xed, 0xfe, 0x0c, 0x00, 0x00, 0x01, 0x00, 0x00, 0x00, 0x00,
    0x02, 0x00, 0x00, 0x00, 0x10, 0x00, 0x00, 0x00, 0x58, 0x05, 0x00, 0x00,
    0x85, 0x00, 0x20, 0x00, 0x00, 0x00, 0x00, 0x00,
];

// ============================================================================
// Mach-O header tests (64-bit ARM64)
// ============================================================================

#[test]
fn test_macho_magic() {
    // Magic number at offset 0, 32 bits
    // 0xFEEDFACF = 64-bit Mach-O (stored as little-endian on disk: CF FA ED FE)
    // When read as big-endian (default), we see 0xCFFAEDFE
    let magic = read_bits_hex(&MACHO_HEADER, 0, 32);
    println!("Mach-O magic (offset 0, 32 bits): {}", magic);
    assert_eq!(magic, "0xcffaedfe", "Expected 64-bit Mach-O magic (LE on disk)");
}

#[test]
fn test_macho_cpu_type() {
    // CPU type at offset 4 bytes = 32 bits, 32 bits wide
    // 0x0100000C = CPU_TYPE_ARM64 (little-endian: 0x0C000001)
    let cpu_type = read_bits_decimal_lsb(&MACHO_HEADER, 32, 32);
    println!("Mach-O CPU type (offset 32 bits, 32 bits LE): {}", cpu_type);
    // ARM64 = 0x0100000C = 16777228
    assert_eq!(cpu_type, 16777228, "Expected ARM64 CPU type");
}

#[test]
fn test_macho_file_type() {
    // File type at offset 12 bytes = 96 bits, 32 bits wide
    // MH_EXECUTE = 0x02
    let file_type = read_bits_decimal_lsb(&MACHO_HEADER, 96, 32);
    println!("Mach-O file type (offset 96 bits, 32 bits LE): {}", file_type);
    assert_eq!(file_type, 2, "Expected MH_EXECUTE file type");
}
