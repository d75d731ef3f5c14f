//! The two 48-bit markers of bzip2: the block header 0x314159265359 (the
//! digits of pi) and the end of stream 0x177245385090 (the digits of its
//! square root).

use bitvec::prelude::{BitSlice, Msb0};
use itty_bitty::extract::{extract, BitOrder};
use itty_bitty::pipeline::read_field;
use itty_bitty::render::OutputFormat;
use itty_bitty::token::{parse_length, parse_offset};
use num_bigint::BigUint;

const BLOCK_MAGIC: u64 = 0x314159265359; // pi
const EOS_MAGIC: u64 = 0x177245385090; // sqrt(pi)

/// `README.md`, compressed with bzip2.
const README_BZ2: [u8; 93] = [
    0x42, 0x5a, 0x68, 0x39, 0x31, 0x41, 0x59, 0x26, 0x53, 0x59, 0x98, 0x88,
    0xf7, 0xe2, 0x00, 0x00, 0x06, 0xd3, 0x80, 0x00, 0x10, 0x48, 0x03, 0x04,
    0x00, 0x3b, 0xe7, 0x9d, 0x20, 0x20, 0x00, 0x48, 0x89, 0x91, 0xa4, 0x7e,
    0xa2, 0x69, 0xa6, 0x64, 0xd4, 0x1a, 0x21, 0xa0, 0x1a, 0x00, 0x02, 0xa6,
    0xde, 0x54, 0x7e, 0x8e, 0x29, 0x54, 0xca, 0x06, 0xbd, 0xa6, 0xd0, 0x08,
    0xa7, 0x2e, 0x67, 0x6c, 0xaf, 0x57, 0x34, 0xe5, 0xcd, 0xa0, 0x02, 0x48,
    0x35, 0x08, 0x5c, 0x0a, 0x87, 0x32, 0x6a, 0x0a, 0x83, 0x31, 0xf1, 0x77,
    0x24, 0x53, 0x85, 0x09, 0x09, 0x88, 0x8f, 0x7e, 0x20,
];

fn read_bits_decimal(data: &[u8], offset: usize, bits: usize) -> u64 {
    let offset = parse_offset(&offset.to_string()).expect("offset token");
    let length = parse_length(&bits.to_string()).expect("length token");
    match read_field(data, &offset, &length, BitOrder::Msb, OutputFormat::Decimal, None) {
        Ok(text) => text.trim().parse().unwrap_or(0),
        Err(_) => 0,
    }
}

fn find_48bit_markers(data: &[u8], marker: u64) -> Vec<usize> {
    let bits: &BitSlice<u8, Msb0> = BitSlice::from_slice(data);
    let mut found = Vec::new();

    for bit_offset in 0..=(bits.len().saturating_sub(48)) {
        let slice = &bits[bit_offset..bit_offset + 48];
        let num_bytes = 6;
        let mut bytes = [0u8; 6];
        let padding = num_bytes * 8 - 48; // = 0 for 48 bits

        for (i, bit) in slice.iter().enumerate() {
            if *bit {
                let abs_pos = padding + i;
                let byte_idx = abs_pos / 8;
                let bit_idx = 7 - (abs_pos % 8);
                bytes[byte_idx] |= 1 << bit_idx;
            }
        }

        let value = u64::from_be_bytes([0, 0, bytes[0], bytes[1], bytes[2], bytes[3], bytes[4], bytes[5]]);
        if value == marker {
            found.push(bit_offset);
        }
    }

    found
}

#[test]
fn test_bzip2_stream_header() {
    // First 2 bytes: "BZ"
    let magic = read_bits_decimal(&README_BZ2, 0, 16);
    println!("Bit 0-15: 'BZ' magic = 0x{:04X}", magic);
    assert_eq!(magic, 0x425A, "Expected 'BZ' magic");

    // Byte 3: version 'h' (0x68) for Huffman
    let version = read_bits_decimal(&README_BZ2, 16, 8);
    println!("Bit 16-23: version = 0x{:02X} ('{}')", version, version as u8 as char);
    assert_eq!(version, 0x68, "Expected 'h' version");

    // Byte 4: block size '1'-'9' (100k to 900k)
    let block_size = read_bits_decimal(&README_BZ2, 24, 8);
    println!("Bit 24-31: block size = 0x{:02X} ('{}')", block_size, block_size as u8 as char);
    assert!(
        block_size >= 0x31 && block_size <= 0x39,
        "Expected block size '1'-'9', got 0x{:02X}",
        block_size
    );

    println!("\n=> bzip2 stream header: BZh{}", (block_size as u8 - 0x30));
}

#[test]
fn test_bzip2_block_magic_at_known_offset() {
    // Block header starts at bit 32 (byte 4)
    let block_magic = read_bits_decimal(&README_BZ2, 32, 48);
    println!("Bit 32-79: block magic = 0x{:012X}", block_magic);
    println!("           expected \u{3c0}  = 0x{:012X}", BLOCK_MAGIC);
    assert_eq!(
        block_magic, BLOCK_MAGIC,
        "Expected block magic 0x{:012X} (pi), got 0x{:012X}",
        BLOCK_MAGIC, block_magic
    );

    println!("\n=> Found \u{3c0} (3.14159265359) at bit 32!");
}

#[test]
fn test_find_all_bzip2_markers() {
    let data = README_BZ2.to_vec();

    println!(
        "Searching {} bytes ({} bits) for pi and sqrt(pi)...",
        data.len(),
        data.len() * 8
    );

    let blocks = find_48bit_markers(&data, BLOCK_MAGIC);
    let eos = find_48bit_markers(&data, EOS_MAGIC);

    for &offset in &blocks {
        println!(
            "  Found pi (block header) at bit {} (byte {}, +{} bits)",
            offset,
            offset / 8,
            offset % 8
        );
    }
    for &offset in &eos {
        println!(
            "  Found sqrt(pi) (EOS) at bit {} (byte {}, +{} bits)",
            offset,
            offset / 8,
            offset % 8
        );
    }

    assert!(!blocks.is_empty(), "Should find at least one block header");
    assert!(!eos.is_empty(), "Should find end-of-stream marker");

    println!("\nSummary:");
    println!(
        "  Block headers (pi): {} found at bits {:?}",
        blocks.len(),
        blocks
    );
    println!(
        "  End of stream (sqrt(pi)): {} found at bits {:?}",
        eos.len(),
        eos
    );
}

#[test]
fn markers_found_by_the_library_at_every_bit_offset() {
    let data = README_BZ2.to_vec();
    let mut blocks = Vec::new();
    let mut eos = Vec::new();
    for start in 0..=(data.len() * 8 - 48) {
        let value = extract(&data, start, start + 48, BitOrder::Msb);
        if value == BigUint::from(BLOCK_MAGIC) {
            blocks.push(start);
        }
        if value == BigUint::from(EOS_MAGIC) {
            eos.push(start);
        }
    }
    assert_eq!(blocks, find_48bit_markers(&data, BLOCK_MAGIC));
    assert_eq!(eos, find_48bit_markers(&data, EOS_MAGIC));
    assert_eq!(blocks, vec![32]);
    // The end-of-stream marker does not start at a byte boundary.
    assert_eq!(eos, vec![660]);
}
