//! Magic numbers of common archive formats, read from small archives that
//! all hold the same short text file.

use itty_bitty::extract::BitOrder;
use itty_bitty::pipeline::read_field;
use itty_bitty::render::OutputFormat;
use itty_bitty::token::{parse_length, parse_offset};

/// Runs the whole pipeline on `data` with the offset and the length written
/// as decimal tokens, and gives the trimmed text, or nothing on an error.
fn read_bits(data: &[u8], offset: i64, bits: usize, format: &str, order: &str) -> String {
    let offset = match parse_offset(&offset.to_string()) {
        Ok(offset) => offset,
        Err(_) => return String::new(),
    };
    let length = match parse_length(&bits.to_string()) {
        Ok(length) => length,
        Err(_) => return String::new(),
    };
    let order = if order == "lsb" { BitOrder::Lsb } else { BitOrder::Msb };
    let format = match format {
        "decimal" => OutputFormat::Decimal,
        "binary" => OutputFormat::Binary,
        "ascii" => OutputFormat::Ascii,
        "hex-ascii" => OutputFormat::HexAscii,
        _ => OutputFormat::Hex,
    };
    match read_field(data, &offset, &length, order, format, None) {
        Ok(text) => text.trim().to_string(),
        Err(_) => String::new(),
    }
}

fn read_bits_hex(data: &[u8], offset: i64, bits: usize) -> String {
    read_bits(data, offset, bits, "hex", "msb")
}

fn read_bits_decimal_lsb(data: &[u8], offset: i64, bits: usize) -> u64 {
    read_bits(data, offset, bits, "decimal", "lsb").parse().unwrap_or(0)
}

/// The text that every archive below holds.
fn readme_content() -> &'static str {
    "# itty-bitty test file\n\nThis is test content for archive format testing.\n"
}

/// `README.md`, compressed with gzip.
const README_GZ: [u8; 79] = [
    0x1f, 0x8b, 0x08, 0x00, 0x00, 0x00, 0x00, 0x00, 0x02, 0x03, 0x53, 0x56,
    0xc8, 0x2c, 0x29, 0xa9, 0xd4, 0x4d, 0x02, 0x91, 0x0a, 0x25, 0xa9, 0xc5,
    0x25, 0x0a, 0x69, 0x99, 0x39, 0xa9, 0x5c, 0x5c, 0x21, 0x19, 0x99, 0xc5,
    0x0a, 0x40, 0x04, 0x16, 0x4a, 0xce, 0xcf, 0x2b, 0x49, 0xcd, 0x03, 0x4a,
    0xe5, 0x17, 0x29, 0x24, 0x16, 0x25, 0x67, 0x64, 0x96, 0xa5, 0x82, 0xd8,
    0xb9, 0x89, 0x25, 0x60, 0xf9, 0xcc, 0xbc, 0x74, 0x3d, 0x2e, 0x00, 0xd1,
    0x48, 0x75, 0x30, 0x49, 0x00, 0x00, 0x00,
];

/// `README.md`, compressed with bzip2.
const README_BZ2: [u8; 93] = [
    0x42, 0x5a, 0x68, 0x39, 0x31, 0x41, 0x59, 0x26, 0x53, 0x59, 0x98, 0x88,
    0xf7, 0xe2, 0x00, 0x00, 0x06, 0xd3, 0x80, 0x00, 0x10, 0x48, 0x03, 0x04,
    0x00, 0x3b, 0xe7, 0x9d, 0x20, 0x20, 0x00, 0x48, 0x89, 0x91, 0xa4, 0x7e,
    0xa2, 0x69, 0xa6, 0x64, 0xd4, 0x1a, 0x21, 0xa0, 0x1a, 0x00, 0x02, 0xa6,
    0xde, 0x54, 0x7e, 0x8e, 0x29, 0x54, 0xca, 0x06, 0xbd, 0xa6, 0xd0, 0x08,
    0xa7, 0x2e, 0x67, 0x6c, 0xaf, 0x57, 0x34, 0xe5, 0xcd, 0xa0, 0x02, 0x48,
    0x35, 0x08, 0x5c, 0x0a, 0x87, 0x32, 0x6a, 0x0a, 0x83, 0x31, 0xf1, 0x77,
    0x24, 0x53, 0x85, 0x09, 0x09, 0x88, 0x8f, 0x7e, 0x20,
];

/// A ZIP archive with `README.md` as its one entry.
const README_ZIP: [u8; 177] = [
    0x50, 0x4b, 0x03, 0x04, 0x14, 0x00, 0x00, 0x00, 0x08, 0x00, 0x00, 0x00,
    0x21, 0x58, 0xd1, 0x48, 0x75, 0x30, 0x3d, 0x00, 0x00, 0x00, 0x49, 0x00,
    0x00, 0x00, 0x09, 0x00, 0x00, 0x00, 0x52, 0x45, 0x41, 0x44, 0x4d, 0x45,
    0x2e, 0x6d, 0x64, 0x53, 0x56, 0xc8, 0x2c, 0x29, 0xa9, 0xd4, 0x4d, 0x02,
    0x91, 0x0a, 0x25, 0xa9, 0xc5, 0x25, 0x0a, 0x69, 0x99, 0x39, 0xa9, 0x5c,
    0x5c, 0x21, 0x19, 0x99, 0xc5, 0x0a, 0x40, 0x04, 0x16, 0x4a, 0xce, 0xcf,
    0x2b, 0x49, 0xcd, 0x03, 0x4a, 0xe5, 0x17, 0x29, 0x24, 0x16, 0x25, 0x67,
    0x64, 0x96, 0xa5, 0x82, 0xd8, 0xb9, 0x89, 0x25, 0x60, 0xf9, 0xcc, 0xbc,
    0x74, 0x3d, 0x2e, 0x00, 0x50, 0x4b, 0x01, 0x02, 0x14, 0x03, 0x14, 0x00,
    0x00, 0x00, 0x08, 0x00, 0x00, 0x00, 0x21, 0x58, 0xd1, 0x48, 0x75, 0x30,
    0x3d, 0x00, 0x00, 0x00, 0x49, 0x00, 0x00, 0x00, 0x09, 0x00, 0x00, 0x00,
    0x00, 0x00, 0x00, 0x00, 0x00, 0x00, 0x00, 0x00, 0x80, 0x01, 0x00, 0x00,
    0x00, 0x00, 0x52, 0x45, 0x41, 0x44, 0x4d, 0x45, 0x2e, 0x6d, 0x64, 0x50,
    0x4b, 0x05, 0x06, 0x00, 0x00, 0x00, 0x00, 0x01, 0x00, 0x01, 0x00, 0x37,
    0x00, 0x00, 0x00, 0x64, 0x00, 0x00, 0x00, 0x00, 0x00,
];

/// The header block of a tar archive with `README.md` as its one entry.
const TAR_HEADER: [u8; 512] = [
    0x52, 0x45, 0x41, 0x44, 0x4d, 0x45, 0x2e, 0x6d, 0x64, 0x00, 0x00, 0x00,
    0x00, 0x00, 0x00, 0x00, 0x00, 0x00, 0x00, 0x00, 0x00, 0x00, 0x00, 0x00,
    0x00, 0x00, 0x00, 0x00, 0x00, 0x00, 0x00, 0x00, 0x00, 0x00, 0x00, 0x00,
    0x00, 0x00, 0x00, 0x00, 0x00, 0x00, 0x00, 0x00, 0x00, 0x00, 0x00, 0x00,
    0x00, 0x00, 0x00, 0x00, 0x00, 0x00, 0x00, 0x00, 0x00, 0x00, 0x00, 0x00,
    0x00, 0x00, 0x00, 0x00, 0x00, 0x00, 0x00, 0x00, 0x00, 0x00, 0x00, 0x00,
    0x00, 0x00, 0x00, 0x00, 0x00, 0x00, 0x00, 0x00, 0x00, 0x00, 0x00, 0x00,
    0x00, 0x00, 0x00, 0x00, 0x00, 0x00, 0x00, 0x00, 0x00, 0x00, 0x00, 0x00,
    0x00, 0x00, 0x00, 0x00, 0x30, 0x30, 0x30, 0x30, 0x36, 0x34, 0x34, 0x00,
    0x30, 0x30, 0x30, 0x30, 0x30, 0x30, 0x30, 0x00, 0x30, 0x30, 0x30, 0x30,
    0x30, 0x30, 0x30, 0x00, 0x30, 0x30, 0x30, 0x30, 0x30, 0x30, 0x30, 0x30,
    0x31, 0x31, 0x31, 0x00, 0x30, 0x30, 0x30, 0x30, 0x30, 0x30, 0x30, 0x30,
    0x30, 0x30, 0x30, 0x00, 0x30, 0x30, 0x37, 0x32, 0x31, 0x35, 0x00, 0x20,
    0x30, 0x00, 0x00, 0x00, 0x00, 0x00, 0x00, 0x00, 0x00, 0x00, 0x00, 0x00,
    0x00, 0x00, 0x00, 0x00, 0x00, 0x00, 0x00, 0x00, 0x00, 0x00, 0x00, 0x00,
    0x00, 0x00, 0x00, 0x00, 0x00, 0x00, 0x00, 0x00, 0x00, 0x00, 0x00, 0x00,
    0x00, 0x00, 0x00, 0x00, 0x00, 0x00, 0x00, 0x00, 0x00, 0x00, 0x00, 0x00,
    0x00, 0x00, 0x00, 0x00, 0x00, 0x00, 0x00, 0x00, 0x00, 0x00, 0x00, 0x00,
    0x00, 0x00, 0x00, 0x00, 0x00, 0x00, 0x00, 0x00, 0x00, 0x00, 0x00, 0x00,
    0x00, 0x00, 0x00, 0x00, 0x00, 0x00, 0x00, 0x00, 0x00, 0x00, 0x00, 0x00,
    0x00, 0x00, 0x00, 0x00, 0x00, 0x00, 0x00, 0x00, 0x00, 0x00, 0x00, 0x00,
    0x00, 0x00, 0x00, 0x00, 0x00, 0x75, 0x73, 0x74, 0x61, 0x72, 0x00, 0x30,
    0x30, 0x00, 0x00, 0x00, 0x00, 0x00, 0x00, 0x00, 0x00, 0x00, 0x00, 0x00,
    0x00, 0x00, 0x00, 0x00, 0x00, 0x00, 0x00, 0x00, 0x00, 0x00, 0x00, 0x00,
    0x00, 0x00, 0x00, 0x00, 0x00, 0x00, 0x00, 0x00, 0x00, 0x00, 0x00, 0x00,
    0x00, 0x00, 0x00, 0x00, 0x00, 0x00, 0x00, 0x00, 0x00, 0x00, 0x00, 0x00,
    0x00, 0x00, 0x00, 0x00, 0x00, 0x00, 0x00, 0x00, 0x00, 0x00, 0x00, 0x00,
    0x00, 0x00, 0x00, 0x00, 0x00, 0x00, 0x00, 0x00, 0x00, 0x00, 0x00, 0x00,
    0x00, 0x00, 0x00, 0x00, 0x00, 0x00, 0x00, 0x00, 0x00, 0x00, 0x00, 0x00,
    0x00, 0x00, 0x00, 0x00, 0x00, 0x00, 0x00, 0x00, 0x00, 0x00, 0x00, 0x00,
    0x00, 0x00, 0x00, 0x00, 0x00, 0x00, 0x00, 0x00, 0x00, 0x00, 0x00, 0x00,
    0x00, 0x00, 0x00, 0x00, 0x00, 0x00, 0x00, 0x00, 0x00, 0x00, 0x00, 0x00,
    0x00, 0x00, 0x00, 0x00, 0x00, 0x00, 0x00, 0x00, 0x00, 0x00, 0x00, 0x00,
    0x00, 0x00, 0x00, 0x00, 0x00, 0x00, 0x00, 0x00, 0x00, 0x00, 0x00, 0x00,
    0x00, 0x00, 0x00, 0x00, 0x00, 0x00, 0x00, 0x00, 0x00, 0x00, 0x00, 0x00,
    0x00, 0x00, 0x00, 0x00, 0x00, 0x00, 0x00, 0x00, 0x00, 0x00, 0x00, 0x00,
    0x00, 0x00, 0x00, 0x00, 0x00, 0x00, 0x00, 0x00, 0x00, 0x00, 0x00, 0x00,
    0x00, 0x00, 0x00, 0x00, 0x00, 0x00, 0x00, 0x00, 0x00, 0x00, 0x00, 0x00,
    0x00, 0x00, 0x00, 0x00, 0x00, 0x00, 0x00, 0x00, 0x00, 0x00, 0x00, 0x00,
    0x00, 0x00, 0x00, 0x00, 0x00, 0x00, 0x00, 0x00, 0x00, 0x00, 0x00, 0x00,
    0x00, 0x00, 0x00, 0x00, 0x00, 0x00, 0x00, 0x00, 0x00, 0x00, 0x00, 0x00,
    0x00, 0x00, 0x00, 0x00, 0x00, 0x00, 0x00, 0x00, 0x00, 0x00, 0x00, 0x00,
    0x00, 0x00, 0x00, 0x00, 0x00, 0x00, 0x00, 0x00,
];

/// The same tar archive, compressed with xz.
const README_TAR_XZ: [u8; 220] = [
    0xfd, 0x37, 0x7a, 0x58, 0x5a, 0x00, 0x00, 0x04, 0xe6, 0xd6, 0xb4, 0x46,
    0x02, 0x00, 0x21, 0x01, 0x16, 0x00, 0x00, 0x00, 0x74, 0x2f, 0xe5, 0xa3,
    0xe0, 0x27, 0xff, 0x00, 0x99, 0x5d, 0x00, 0x29, 0x11, 0x44, 0x27, 0x0d,
    0x8f, 0x7e, 0xfd, 0x90, 0x7a, 0x39, 0xf6, 0x93, 0x28, 0x2f, 0x5c, 0x0a,
    0x1d, 0xff, 0x52, 0xe7, 0x5d, 0xc5, 0x62, 0x29, 0xc8, 0x22, 0xeb, 0x61,
    0xc5, 0x12, 0x1b, 0x95, 0xcd, 0x35, 0x4e, 0x19, 0xbe, 0xb2, 0x78, 0x40,
    0x2c, 0x3e, 0xe9, 0xe7, 0xa1, 0x84, 0x8c, 0x30, 0x06, 0xd4, 0x8c, 0xa6,
    0x86, 0xbf, 0xca, 0x48, 0xaf, 0xfb, 0x6b, 0xef, 0xae, 0xaf, 0x03, 0x96,
    0xcb, 0x22, 0x54, 0x37, 0xe7, 0xdc, 0xf2, 0xc6, 0x0d, 0x99, 0x5b, 0x2a,
    0xc3, 0x75, 0x55, 0xd7, 0xa5, 0xb5, 0xfd, 0xae, 0x2a, 0xda, 0x46, 0x78,
    0x35, 0xfd, 0xa3, 0x5b, 0x7c, 0x85, 0x75, 0x95, 0x7e, 0x6f, 0xef, 0x41,
    0xe9, 0x8b, 0x4b, 0xda, 0xbe, 0xfa, 0x3d, 0x41, 0x2b, 0xee, 0x85, 0x66,
    0xc8, 0x50, 0x17, 0xa2, 0xd5, 0x76, 0x3a, 0x02, 0xa1, 0x18, 0xbe, 0x96,
    0x75, 0xa1, 0xaf, 0x36, 0xf0, 0x50, 0x22, 0xbc, 0xdf, 0xf6, 0x5e, 0x74,
    0xc0, 0xcb, 0xbb, 0x94, 0xf0, 0xd2, 0x15, 0xbb, 0x07, 0xd8, 0xdf, 0x10,
    0xc0, 0x30, 0x3e, 0xa0, 0x00, 0x00, 0x00, 0x00, 0x9c, 0x6e, 0x59, 0x2c,
    0x40, 0x53, 0xc3, 0xff, 0x00, 0x01, 0xb5, 0x01, 0x80, 0x50, 0x00, 0x00,
    0x20, 0xe7, 0xd7, 0x35, 0xb1, 0xc4, 0x67, 0xfb, 0x02, 0x00, 0x00, 0x00,
    0x00, 0x04, 0x59, 0x5a,
];

/// The whole tar archive: the header, the text in blocks of 512 bytes, and
/// zero blocks up to 10240 bytes.
fn tar_file() -> Vec<u8> {
    let mut tar = TAR_HEADER.to_vec();
    tar.extend_from_slice(readme_content().as_bytes());
    tar.resize(10240, 0);
    tar
}

// ============================================================================
// gzip tests
// ============================================================================

#[test]
fn test_gzip_magic() {
    let magic = read_bits_hex(&README_GZ, 0, 16);
    println!("gzip magic (offset 0, 16 bits): {}", magic);
    assert_eq!(magic, "0x1f8b", "Expected gzip magic 0x1F8B");
}

#[test]
fn test_gzip_isize() {
    let isize = read_bits_decimal_lsb(&README_GZ, -32, 32);
    let original_size = readme_content().len() as u64;

    println!("gzip ISIZE (last 32 bits LE): {}", isize);
    println!("Original content size: {}", original_size);
    assert_eq!(isize, original_size, "gzip ISIZE should match original size");
}

// ============================================================================
// bzip2 tests
// ============================================================================

#[test]
fn test_bzip2_magic() {
    let magic = read_bits_hex(&README_BZ2, 0, 16);
    println!("bzip2 magic (offset 0, 16 bits): {}", magic);
    assert_eq!(magic, "0x425a", "Expected 'BZ' magic");

    let version = read_bits_hex(&README_BZ2, 16, 8);
    println!("bzip2 version (offset 16, 8 bits): {}", version);
    assert_eq!(version, "0x68", "Expected 'h' version");
}

#[test]
fn test_bzip2_pi_marker() {
    // Block header magic (pi) starts at bit 32
    let pi = read_bits_hex(&README_BZ2, 32, 48);
    println!("bzip2 block magic \u{3c0} (offset 32, 48 bits): {}", pi);
    assert_eq!(pi, "0x314159265359", "Expected \u{3c0} digits");
}

// ============================================================================
// ZIP tests
// ============================================================================

#[test]
fn test_zip_magic() {
    let magic = read_bits_hex(&README_ZIP, 0, 32);
    println!("ZIP local header magic (offset 0, 32 bits): {}", magic);
    assert_eq!(magic, "0x504b0304", "Expected PK\\x03\\x04");
}

#[test]
fn test_zip_eocd() {
    // EOCD is 22 bytes from end for minimal ZIP
    let eocd = read_bits_hex(&README_ZIP, -176, 32);
    println!("ZIP EOCD magic (offset -176, 32 bits): {}", eocd);
    assert_eq!(eocd, "0x504b0506", "Expected PK\\x05\\x06");
}

// ============================================================================
// tar tests
// ============================================================================

#[test]
fn test_tar_ustar_magic() {
    // ustar magic is at offset 257 bytes = 2056 bits, 5 bytes = "ustar"
    let magic = read_bits_hex(&tar_file(), 2056, 40);
    println!("tar ustar magic (offset 2056, 40 bits): {}", magic);
    // "ustar" = 0x7573746172
    assert_eq!(magic, "0x7573746172", "Expected 'ustar' magic");
}

// ============================================================================
// xz tests
// ============================================================================

#[test]
fn test_xz_magic() {
    let magic = read_bits_hex(&README_TAR_XZ, 0, 48);
    println!("xz magic (offset 0, 48 bits): {}", magic);
    assert_eq!(magic, "0xfd377a585a00", "Expected xz magic");
}
