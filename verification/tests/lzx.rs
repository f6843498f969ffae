use nextboot_boot::lzx::model::{LZX_LENGTH_CODES, LZX_MAIN_CODES, LZX_MAIN_LIT_CODES, LZX_PRETREE_CODES, LZX_REPEATED_OFFSETS};
use nextboot_boot::lzx::{decompress_lzx, LzxDecodeError};

fn make_lzx_uncompressed_block(bytes: &[u8]) -> Vec<u8> {
    let mut bits = Vec::new();
    push_bits(&mut bits, 3, 3);
    push_bits(&mut bits, 0, 1);
    push_bits(&mut bits, ((bytes.len() >> 8) & 0xff) as u16, 8);
    push_bits(&mut bits, (bytes.len() & 0xff) as u16, 8);
    push_bits(&mut bits, 0, 1);
    while bits.len() % 16 != 0 {
        bits.push(0);
    }

    let mut out = bits_to_le_words(&bits);
    for _ in 0..LZX_REPEATED_OFFSETS {
        out.extend_from_slice(&1u32.to_le_bytes());
    }
    out.extend_from_slice(bytes);
    if bytes.len() % 2 != 0 {
        out.push(0);
    }
    out
}

fn make_lzx_verbatim_literal_block() -> Vec<u8> {
    let mut bits = Vec::new();
    push_bits(&mut bits, 1, 3);
    push_bits(&mut bits, 0, 1);
    push_bits(&mut bits, 0, 8);
    push_bits(&mut bits, 2, 8);

    push_pretree_lengths(&mut bits, &[0, 16]);
    for symbol in 0..LZX_MAIN_LIT_CODES {
        bits.push(u8::from(symbol == usize::from(b'h') || symbol == usize::from(b'i')));
    }

    push_pretree_lengths(&mut bits, &[0, 1]);
    for _ in 0..(LZX_MAIN_CODES - LZX_MAIN_LIT_CODES) {
        bits.push(0);
    }

    push_pretree_lengths(&mut bits, &[0, 1]);
    for _ in 0..LZX_LENGTH_CODES {
        bits.push(0);
    }

    bits.push(0);
    bits.push(1);
    while bits.len() % 16 != 0 {
        bits.push(0);
    }

    bits_to_le_words(&bits)
}

fn push_pretree_lengths(bits: &mut Vec<u8>, active_codes: &[usize]) {
    for code in 0..LZX_PRETREE_CODES {
        push_bits(bits, u16::from(active_codes.contains(&code)), 4);
    }
}

fn push_bits(bits: &mut Vec<u8>, value: u16, count: usize) {
    for index in (0..count).rev() {
        bits.push(((value >> index) & 1) as u8);
    }
}

fn bits_to_le_words(bits: &[u8]) -> Vec<u8> {
    let mut out = Vec::new();
    for chunk in bits.chunks_exact(16) {
        let mut word = 0u16;
        for bit in chunk {
            word = (word << 1) | u16::from(*bit);
        }
        out.extend_from_slice(&word.to_le_bytes());
    }
    out
}

#[test]
fn lzx_decompresses_uncompressed_block() {
    let compressed = make_lzx_uncompressed_block(b"hello");
    let mut out = [0u8; 5];

    assert_eq!(decompress_lzx(&compressed, &mut out), Ok(5));
    assert_eq!(&out, b"hello");
}

#[test]
fn lzx_rejects_odd_length_input() {
    let mut out = [0u8; 1];

    assert_eq!(decompress_lzx(&[0, 1, 2], &mut out), Err(LzxDecodeError::OddInputLength));
}

#[test]
fn lzx_decompresses_verbatim_literal_block() {
    let compressed = make_lzx_verbatim_literal_block();
    let mut out = [0u8; 2];

    assert_eq!(decompress_lzx(&compressed, &mut out), Ok(2));
    assert_eq!(&out, b"hi");
}

#[test]
fn tests_decompresses_uncompressed_block() {
    let compressed = make_lzx_uncompressed_block(b"hello");
    let mut out = [0u8; 5];

    assert_eq!(decompress_lzx(&compressed, &mut out), Ok(5));
    assert_eq!(&out, b"hello");
}

#[test]
fn tests_rejects_odd_length_input() {
    let mut out = [0u8; 1];

    assert_eq!(decompress_lzx(&[0, 1, 2], &mut out), Err(LzxDecodeError::OddInputLength));
}

#[test]
fn tests_decompresses_verbatim_literal_block() {
    let compressed = make_lzx_verbatim_literal_block();
    let mut out = [0u8; 2];

    assert_eq!(decompress_lzx(&compressed, &mut out), Ok(2));
    assert_eq!(&out, b"hi");
}

#[test]
fn lzx_empty_input_writes_nothing() {
    let mut out = [7u8; 3];
    assert_eq!(decompress_lzx(&[], &mut out), Ok(0));
    assert_eq!(out, [7, 7, 7]);
}

#[test]
fn lzx_rejects_block_longer_than_output() {
    let compressed = make_lzx_uncompressed_block(b"hello");
    let mut out = [0u8; 4];
    assert_eq!(decompress_lzx(&compressed, &mut out), Err(LzxDecodeError::OutputOverflow));
}

#[test]
fn lzx_rejects_invalid_block_type() {
    // Block type 0 in the top three bits of the first word.
    let mut out = [0u8; 4];
    assert_eq!(decompress_lzx(&[0x00, 0x00], &mut out), Err(LzxDecodeError::InvalidBlockType));
}

#[test]
fn lzx_rejects_truncated_uncompressed_block() {
    let mut compressed = make_lzx_uncompressed_block(b"hello");
    compressed.truncate(compressed.len() - 4);
    let mut out = [0u8; 5];
    assert_eq!(decompress_lzx(&compressed, &mut out), Err(LzxDecodeError::InputTooShort));
}

#[test]
fn lzx_restores_e8_call_targets() {
    // An E8 call at offset 0 whose target 0x10 becomes 0x10 - 0 and one at
    // offset 5 whose target 0x20 becomes 0x20 - 5.
    let payload = [0xe8, 0x10, 0, 0, 0, 0xe8, 0x20, 0, 0, 0, 0, 0, 0, 0, 0, 0];
    let compressed = make_lzx_uncompressed_block(&payload);
    let mut out = [0u8; 16];
    assert_eq!(decompress_lzx(&compressed, &mut out), Ok(16));
    assert_eq!(out[1..5], [0x10, 0, 0, 0]);
    assert_eq!(out[6..10], [0x1b, 0, 0, 0]);
}

#[test]
fn lzx_uncompressed_block_gives_its_bytes_back() {
    let data: Vec<u8> = (0..301u32).map(|i| (i % 200) as u8).collect();
    let compressed = make_lzx_uncompressed_block(&data);
    assert_eq!(&compressed[..4], &[0x12, 0x60, 0x00, 0xd0]);
    let mut out = [0xaau8; 310];
    assert_eq!(decompress_lzx(&compressed, &mut out), Ok(301));
    assert_eq!(&out[..301], &data[..]);
    assert_eq!(&out[301..], &[0xaa; 9]);
}

#[test]
fn canonical_codes_decode_to_their_symbols() {
    let table = nextboot_boot::lzx::huffman::LzxHuffman::from_lengths(&vec![2, 1, 2]).unwrap();
    assert_eq!(table.decode(0x0000), Ok((1, 1)));
    assert_eq!(table.decode(0x7fff), Ok((1, 1)));
    assert_eq!(table.decode(0x8000), Ok((0, 2)));
    assert_eq!(table.decode(0xc000), Ok((2, 2)));
    assert_eq!(table.decode(0xffff), Ok((2, 2)));
}
