//! The LZX block format as a state machine over mathematical values.
//!
//! Each function takes the decoder state and returns the next state with the
//! step's outcome.  Bits are read most-significant first from 16-bit
//! little-endian words; a failed step returns the state as it stood when the
//! failure was found.

use super::huffman::{build_result, table_decode};
use super::LzxDecodeError;
use crate::bytes::{le_u16, le_u32};
use vstd::prelude::*;

verus! {

/// Codes in the aligned-offset alphabet.
pub const LZX_ALIGNOFFSET_CODES: usize = 8;
/// Bits per aligned-offset code length.
pub const LZX_ALIGNOFFSET_BITS: u8 = 3;
/// Codes in the pretree alphabet.
pub const LZX_PRETREE_CODES: usize = 20;
/// Bits per pretree code length.
pub const LZX_PRETREE_BITS: u8 = 4;
/// Literal codes at the start of the main alphabet.
pub const LZX_MAIN_LIT_CODES: usize = 256;
/// Position slots.
pub const LZX_POSITION_SLOTS: usize = 30;
/// Codes in the main alphabet (literals and match headers).
pub const LZX_MAIN_CODES: usize = 496;
/// Codes in the length alphabet.
pub const LZX_LENGTH_CODES: usize = 249;
/// Bits of the block type field.
pub const LZX_BLOCK_TYPE_BITS: u8 = 3;
/// Block length when the header says "default".
pub const LZX_DEFAULT_BLOCK_LEN: usize = 32768;
/// Number of repeated match offsets.
pub const LZX_REPEATED_OFFSETS: usize = 3;
/// File size WIM assumes when rewriting E8 call targets.
pub const LZX_WIM_MAGIC_FILESIZE: i32 = 12000000;

/// Kind of an LZX block.
#[derive(Debug, Clone, Copy, PartialEq, Eq, Structural)]
pub enum LzxBlockType {
    Verbatim,
    AlignedOffset,
    Uncompressed,
}

/// Decoder state.  Huffman tables are given by the code lengths they were
/// built from (`None`: never built).
pub struct LzxModel {
    pub input: Seq<u8>,
    pub input_offset: int,
    pub output: Seq<u8>,
    pub output_offset: int,
    pub block_end: int,
    pub accumulator: u32,
    pub bits: u8,
    pub block_type: LzxBlockType,
    pub repeated_offset: Seq<int>,
    pub alignoffset: Option<Seq<u8>>,
    pub pretree: Option<Seq<u8>>,
    pub main: Option<Seq<u8>>,
    pub length: Option<Seq<u8>>,
    pub main_lengths: Seq<u8>,
    pub length_lengths: Seq<u8>,
}

/// Number of extra offset bits for a position slot.
pub open spec fn footer_bits(slot: int) -> int {
    if slot < 2 {
        0
    } else if slot < 38 {
        slot / 2 - 1
    } else {
        17
    }
}

/// Smallest match offset (plus two) encoded by a position slot.
pub open spec fn position_base(slot: int) -> int
    decreases slot,
{
    if slot <= 0 {
        0
    } else {
        position_base(slot - 1) + vstd::arithmetic::power2::pow2(footer_bits(slot - 1) as nat)
    }
}

/// The state before the first block.
pub open spec fn initial_state(input: Seq<u8>, output: Seq<u8>) -> LzxModel {
    LzxModel {
        input,
        input_offset: 0,
        output,
        output_offset: 0,
        block_end: 0,
        accumulator: 0,
        bits: 0,
        block_type: LzxBlockType::Verbatim,
        repeated_offset: seq![1int, 1int, 1int],
        alignoffset: None,
        pretree: None,
        main: None,
        length: None,
        main_lengths: Seq::new(LZX_MAIN_CODES as nat, |i: int| 0u8),
        length_lengths: Seq::new(LZX_LENGTH_CODES as nat, |i: int| 0u8),
    }
}

/// Unread input, in bits.
pub open spec fn remaining_bits(s: LzxModel) -> int {
    (s.input.len() - s.input_offset) * 8 + s.bits
}

pub open spec fn read_u16(s: LzxModel) -> (LzxModel, Result<u16, LzxDecodeError>) {
    if s.input_offset + 2 <= s.input.len() {
        (LzxModel { input_offset: s.input_offset + 2, ..s }, Ok(le_u16(s.input, s.input_offset)))
    } else {
        (s, Err(LzxDecodeError::InputTooShort))
    }
}

pub open spec fn read_u32(s: LzxModel) -> (LzxModel, Result<u32, LzxDecodeError>) {
    if s.input_offset + 4 <= s.input.len() {
        (LzxModel { input_offset: s.input_offset + 4, ..s }, Ok(le_u32(s.input, s.input_offset)))
    } else {
        (s, Err(LzxDecodeError::InputTooShort))
    }
}

/// Makes at least `needed` bits available when input remains; returns the
/// top 16 bits of the accumulator.
pub open spec fn accumulate(s: LzxModel, needed: u8) -> (LzxModel, Result<u32, LzxDecodeError>) {
    if needed > 16 {
        (s, Err(LzxDecodeError::InvalidHuffmanCode))
    } else if s.bits < needed && s.input_offset < s.input.len() {
        let (s1, r) = read_u16(s);
        match r {
            Err(e) => (s1, Err(e)),
            Ok(word) => {
                let acc = s1.accumulator | ((word as u32) << ((16 - s.bits) as u32));
                (LzxModel { accumulator: acc, bits: (s.bits + 16) as u8, ..s1 }, Ok(acc >> 16u32))
            },
        }
    } else {
        (s, Ok(s.accumulator >> 16u32))
    }
}

pub open spec fn consume(s: LzxModel, n: u8) -> (LzxModel, Result<(), LzxDecodeError>) {
    if n > s.bits {
        (s, Err(LzxDecodeError::InputTooShort))
    } else {
        (LzxModel { accumulator: s.accumulator << (n as u32), bits: (s.bits - n) as u8, ..s }, Ok(()))
    }
}

/// Reads an `n`-bit number.
pub open spec fn get_bits(s: LzxModel, n: u8) -> (LzxModel, Result<int, LzxDecodeError>) {
    if n == 0 {
        (s, Ok(0))
    } else {
        let (s1, r1) = accumulate(s, n);
        match r1 {
            Err(e) => (s1, Err(e)),
            Ok(normalized) => {
                let (s2, r2) = consume(s1, n);
                match r2 {
                    Err(e) => (s2, Err(e)),
                    Ok(_) => (s2, Ok((normalized >> ((16 - n) as u32)) as int)),
                }
            },
        }
    }
}

/// Skips `padding` bits, then drops the rest of the current word.
#[verifier::opaque]
pub open spec fn align_for_bytes(s: LzxModel, padding: u8) -> (LzxModel, Result<(), LzxDecodeError>) {
    let (s1, r1) = get_bits(s, padding);
    match r1 {
        Err(e) => (s1, Err(e)),
        Ok(_) => consume(s1, s1.bits),
    }
}

/// Decodes one symbol with the table built from `code`.
#[verifier::opaque]
pub open spec fn decode_symbol(s: LzxModel, code: Option<Seq<u8>>) -> (LzxModel, Result<int, LzxDecodeError>) {
    let (s1, r1) = accumulate(s, 16);
    match r1 {
        Err(e) => (s1, Err(e)),
        Ok(huf) => match table_decode(code, huf) {
            Err(e) => (s1, Err(e)),
            Ok((sym, len)) => {
                let (s2, r2) = consume(s1, len);
                match r2 {
                    Err(e) => (s2, Err(e)),
                    Ok(_) => (s2, Ok(sym as int)),
                }
            },
        },
    }
}

/// Reads `count - index` more code lengths of `bits` bits each into `lengths`.
pub open spec fn read_lengths(s: LzxModel, lengths: Seq<u8>, index: int, bits: u8) -> (LzxModel, Result<Seq<u8>, LzxDecodeError>)
    decreases lengths.len() - index,
{
    if index < 0 || index >= lengths.len() {
        (s, Ok(lengths))
    } else {
        let (s1, r) = get_bits(s, bits);
        match r {
            Err(e) => (s1, Err(e)),
            Ok(v) => read_lengths(s1, lengths.update(index, v as u8), index + 1, bits),
        }
    }
}

/// Reads a table of `count` code lengths stored directly with `bits` bits each.
#[verifier::opaque]
pub open spec fn read_raw_alphabet(s: LzxModel, count: nat, bits: u8) -> (LzxModel, Result<Seq<u8>, LzxDecodeError>) {
    let (s1, r) = read_lengths(s, Seq::new(count, |i: int| 0u8), 0, bits);
    match r {
        Err(e) => (s1, Err(e)),
        Ok(lengths) => match build_result(lengths) {
            Err(e) => (s1, Err(e)),
            Ok(_) => (s1, Ok(lengths)),
        },
    }
}

/// New length from a pretree delta code.
pub open spec fn delta_length(previous: u8, code: int) -> u8 {
    ((previous + 17 - code) % 17) as u8
}

/// Decodes the pretree-coded lengths from `index` on; `duplicate` counts
/// pending repeats of the previous length.
pub open spec fn pretree_loop(s: LzxModel, lengths: Seq<u8>, index: int, duplicate: int) -> (LzxModel, Result<Seq<u8>, LzxDecodeError>)
    decreases lengths.len() - index,
{
    if index < 0 || index >= lengths.len() {
        if duplicate != 0 {
            (s, Err(LzxDecodeError::InvalidPretreeRepeat))
        } else {
            (s, Ok(lengths))
        }
    } else if duplicate != 0 {
        if index == 0 {
            (s, Err(LzxDecodeError::InvalidPretreeRepeat))
        } else {
            pretree_loop(s, lengths.update(index, lengths[index - 1]), index + 1, duplicate - 1)
        }
    } else {
        let (s1, r1) = decode_symbol(s, s.pretree);
        match r1 {
            Err(e) => (s1, Err(e)),
            Ok(code) => if code <= 16 {
                pretree_loop(s1, lengths.update(index, delta_length(lengths[index], code)), index + 1, 0)
            } else if code == 17 {
                let (s2, r2) = get_bits(s1, 4);
                match r2 {
                    Err(e) => (s2, Err(e)),
                    Ok(v) => pretree_loop(s2, lengths.update(index, 0), index + 1, v + 3),
                }
            } else if code == 18 {
                let (s2, r2) = get_bits(s1, 5);
                match r2 {
                    Err(e) => (s2, Err(e)),
                    Ok(v) => pretree_loop(s2, lengths.update(index, 0), index + 1, v + 19),
                }
            } else if code == 19 {
                let (s2, r2) = get_bits(s1, 1);
                match r2 {
                    Err(e) => (s2, Err(e)),
                    Ok(v) => {
                        let (s3, r3) = decode_symbol(s2, s2.pretree);
                        match r3 {
                            Err(e) => (s3, Err(e)),
                            Ok(code2) => if code2 > 16 {
                                (s3, Err(LzxDecodeError::InvalidPretreeRepeat))
                            } else {
                                pretree_loop(s3, lengths.update(index, delta_length(lengths[index], code2)), index + 1, v + 3)
                            },
                        }
                    },
                }
            } else {
                (s1, Err(LzxDecodeError::InvalidPretreeRepeat))
            },
        }
    }
}

/// Reads a pretree, then the lengths it codes as deltas from `previous`.
#[verifier::opaque]
pub open spec fn read_pretree_lengths(s: LzxModel, previous: Seq<u8>) -> (LzxModel, Result<Seq<u8>, LzxDecodeError>) {
    let (s1, r1) = read_raw_alphabet(s, LZX_PRETREE_CODES as nat, LZX_PRETREE_BITS);
    match r1 {
        Err(e) => (s1, Err(e)),
        Ok(pre) => pretree_loop(LzxModel { pretree: Some(pre), ..s1 }, previous, 0, 0),
    }
}

/// Reads the main alphabet: literal lengths, then match-header lengths.
#[verifier::opaque]
pub open spec fn read_main_alphabet(s: LzxModel) -> (LzxModel, Result<(), LzxDecodeError>) {
    let lit = LZX_MAIN_LIT_CODES as int;
    let (s1, r1) = read_pretree_lengths(s, s.main_lengths.subrange(0, lit));
    match r1 {
        Err(e) => (s1, Err(e)),
        Ok(literal) => {
            let s2 = LzxModel { main_lengths: literal + s1.main_lengths.subrange(lit, s1.main_lengths.len() as int), ..s1 };
            let (s3, r3) = read_pretree_lengths(s2, s2.main_lengths.subrange(lit, s2.main_lengths.len() as int));
            match r3 {
                Err(e) => (s3, Err(e)),
                Ok(rest) => {
                    let lens = s3.main_lengths.subrange(0, lit) + rest;
                    let s4 = LzxModel { main_lengths: lens, ..s3 };
                    match build_result(lens) {
                        Err(e) => (s4, Err(e)),
                        Ok(_) => (LzxModel { main: Some(lens), ..s4 }, Ok(())),
                    }
                },
            }
        },
    }
}

/// Reads the length alphabet.
#[verifier::opaque]
pub open spec fn read_length_alphabet(s: LzxModel) -> (LzxModel, Result<(), LzxDecodeError>) {
    let (s1, r1) = read_pretree_lengths(s, s.length_lengths);
    match r1 {
        Err(e) => (s1, Err(e)),
        Ok(lens) => {
            let s2 = LzxModel { length_lengths: lens, ..s1 };
            match build_result(lens) {
                Err(e) => (s2, Err(e)),
                Ok(_) => (LzxModel { length: Some(lens), ..s2 }, Ok(())),
            }
        },
    }
}

/// Reads three little-endian repeated offsets from `index` on.
pub open spec fn read_offsets(s: LzxModel, index: int) -> (LzxModel, Result<(), LzxDecodeError>)
    decreases 3 - index,
{
    if index < 0 || index >= 3 {
        (s, Ok(()))
    } else {
        let (s1, r) = read_u32(s);
        match r {
            Err(e) => (s1, Err(e)),
            Ok(v) => read_offsets(LzxModel { repeated_offset: s1.repeated_offset.update(index, v as int), ..s1 }, index + 1),
        }
    }
}

/// Reads the block type and length, and sets the block's end.
#[verifier::opaque]
pub open spec fn read_block_layout(s: LzxModel) -> (LzxModel, Result<(), LzxDecodeError>) {
    let (s1, r1) = get_bits(s, LZX_BLOCK_TYPE_BITS);
    match r1 {
        Err(e) => (s1, Err(e)),
        Ok(t) => if t < 1 || t > 3 {
            (s1, Err(LzxDecodeError::InvalidBlockType))
        } else {
            let bt = if t == 1 { LzxBlockType::Verbatim } else if t == 2 { LzxBlockType::AlignedOffset } else { LzxBlockType::Uncompressed };
            let s2 = LzxModel { block_type: bt, ..s1 };
            let (s3, r3) = get_bits(s2, 1);
            match r3 {
                Err(e) => (s3, Err(e)),
                Ok(flag) => {
                    let (s4, r4) = if flag != 0 {
                        (s3, Ok(LZX_DEFAULT_BLOCK_LEN as int))
                    } else {
                        let (sa, ra) = get_bits(s3, 8);
                        match ra {
                            Err(e) => (sa, Err(e)),
                            Ok(high) => {
                                let (sb, rb) = get_bits(sa, 8);
                                match rb {
                                    Err(e) => (sb, Err(e)),
                                    Ok(low) => (sb, Ok(high * 256 + low)),
                                }
                            },
                        }
                    };
                    match r4 {
                        Err(e) => (s4, Err(e)),
                        Ok(block_len) => {
                            let s5 = LzxModel { block_end: s4.output_offset + block_len, ..s4 };
                            if s5.block_end > s5.output.len() {
                                (s5, Err(LzxDecodeError::OutputOverflow))
                            } else {
                                (s5, Ok(()))
                            }
                        },
                    }
                },
            }
        },
    }
}

/// Reads the tables (or, for an uncompressed block, the repeated offsets)
/// that follow the block layout.
#[verifier::opaque]
pub open spec fn read_block_tables(s: LzxModel) -> (LzxModel, Result<(), LzxDecodeError>) {
    match s.block_type {
        LzxBlockType::AlignedOffset => {
            let (s1, r1) = read_raw_alphabet(s, LZX_ALIGNOFFSET_CODES as nat, LZX_ALIGNOFFSET_BITS);
            match r1 {
                Err(e) => (s1, Err(e)),
                Ok(al) => {
                    let (s2, r2) = read_main_alphabet(LzxModel { alignoffset: Some(al), ..s1 });
                    match r2 {
                        Err(e) => (s2, Err(e)),
                        Ok(_) => read_length_alphabet(s2),
                    }
                },
            }
        },
        LzxBlockType::Verbatim => {
            let (s1, r1) = read_main_alphabet(s);
            match r1 {
                Err(e) => (s1, Err(e)),
                Ok(_) => read_length_alphabet(s1),
            }
        },
        LzxBlockType::Uncompressed => {
            let (s1, r1) = align_for_bytes(s, 1);
            match r1 {
                Err(e) => (s1, Err(e)),
                Ok(_) => read_offsets(s1, 0),
            }
        },
    }
}

/// Reads a block header and the tables the block needs.
#[verifier::opaque]
pub open spec fn read_block_header(s: LzxModel) -> (LzxModel, Result<(), LzxDecodeError>) {
    let (s1, r1) = read_block_layout(s);
    match r1 {
        Err(e) => (s1, Err(e)),
        Ok(_) => read_block_tables(s1),
    }
}

/// Copies the stored bytes of an uncompressed block.
#[verifier::opaque]
pub open spec fn copy_uncompressed_block(s: LzxModel) -> (LzxModel, Result<(), LzxDecodeError>) {
    let len = s.block_end - s.output_offset;
    let source_end = s.input_offset + len;
    if len < 0 {
        (s, Err(LzxDecodeError::OutputOverflow))
    } else if source_end > s.input.len() {
        (s, Err(LzxDecodeError::InputTooShort))
    } else {
        let out = Seq::new(s.output.len(), |i: int|
            if s.output_offset <= i < s.block_end { s.input[s.input_offset + (i - s.output_offset)] } else { s.output[i] });
        let s1 = LzxModel { output: out, input_offset: source_end, output_offset: s.block_end, ..s };
        if len % 2 != 0 {
            if source_end + 1 > s.input.len() {
                (s1, Err(LzxDecodeError::InputTooShort))
            } else {
                (LzxModel { input_offset: source_end + 1, ..s1 }, Ok(()))
            }
        } else {
            (s1, Ok(()))
        }
    }
}

/// Copies `end - i` bytes from `offset` bytes back, one at a time (the
/// source may overlap the bytes being written).
pub open spec fn copy_match(out: Seq<u8>, i: int, end: int, offset: int) -> Seq<u8>
    decreases end - i,
{
    if i >= end || i < 0 {
        out
    } else {
        copy_match(out.update(i, out[i - offset]), i + 1, end, offset)
    }
}

/// Match offset for a position slot, updating the repeated offsets.
#[verifier::opaque]
pub open spec fn match_offset(s: LzxModel, slot: int) -> (LzxModel, Result<int, LzxDecodeError>) {
    if slot < LZX_REPEATED_OFFSETS {
        let offset = s.repeated_offset[slot];
        let rep = s.repeated_offset.update(slot, s.repeated_offset[0]).update(0, offset);
        (LzxModel { repeated_offset: rep, ..s }, Ok(offset))
    } else {
        let fb = footer_bits(slot);
        let (s1, r1) = if s.block_type == LzxBlockType::AlignedOffset && fb >= 3 {
            let (sa, ra) = get_bits(s, (fb - 3) as u8);
            match ra {
                Err(e) => (sa, Err(e)),
                Ok(v) => {
                    let (sb, rb) = decode_symbol(sa, sa.alignoffset);
                    match rb {
                        Err(e) => (sb, Err(e)),
                        Ok(a) => (sb, Ok(v * 8 + a)),
                    }
                },
            }
        } else {
            get_bits(s, fb as u8)
        };
        match r1 {
            Err(e) => (s1, Err(e)),
            Ok(extra) => {
                let offset = position_base(slot) + extra - 2;
                if offset < 0 {
                    (s1, Err(LzxDecodeError::MatchUnderrun))
                } else {
                    let r = s1.repeated_offset;
                    (LzxModel { repeated_offset: seq![offset, r[0], r[1]], ..s1 }, Ok(offset))
                }
            },
        }
    }
}

/// Decodes one literal or match.
#[verifier::opaque]
pub open spec fn decode_token(s: LzxModel) -> (LzxModel, Result<(), LzxDecodeError>) {
    let (s1, r1) = decode_symbol(s, s.main);
    match r1 {
        Err(e) => (s1, Err(e)),
        Ok(main) => if main < LZX_MAIN_LIT_CODES {
            if s1.output_offset >= s1.output.len() {
                (s1, Err(LzxDecodeError::OutputOverflow))
            } else {
                (LzxModel { output: s1.output.update(s1.output_offset, main as u8), output_offset: s1.output_offset + 1, ..s1 }, Ok(()))
            }
        } else {
            let m = main - LZX_MAIN_LIT_CODES;
            let header = m % 8;
            let (s2, r2) = if header == 7 { decode_symbol(s1, s1.length) } else { (s1, Ok(0int)) };
            match r2 {
                Err(e) => (s2, Err(e)),
                Ok(length) => {
                    let match_length = header + 2 + length;
                    let slot = m / 8;
                    if slot >= LZX_POSITION_SLOTS {
                        (s2, Err(LzxDecodeError::InvalidHuffmanCode))
                    } else {
                        let (s3, r3) = match_offset(s2, slot);
                        match r3 {
                            Err(e) => (s3, Err(e)),
                            Ok(offset) => if offset == 0 || offset > s3.output_offset {
                                (s3, Err(LzxDecodeError::MatchUnderrun))
                            } else {
                                let end = s3.output_offset + match_length;
                                if end > s3.output.len() || end > s3.block_end {
                                    (s3, Err(LzxDecodeError::OutputOverflow))
                                } else {
                                    (LzxModel { output: copy_match(s3.output, s3.output_offset, end, offset), output_offset: end, ..s3 }, Ok(()))
                                }
                            },
                        }
                    }
                },
            }
        },
    }
}

/// Decodes tokens until the block ends.  Every token writes at least one
/// byte, so `fuel` of at least the block's remaining length is never exhausted.
pub open spec fn run_tokens(s: LzxModel, fuel: nat) -> (LzxModel, Result<(), LzxDecodeError>)
    decreases fuel,
{
    if s.output_offset >= s.block_end {
        (s, Ok(()))
    } else if fuel == 0 {
        (s, Err(LzxDecodeError::OutputOverflow))
    } else {
        let (s1, r) = decode_token(s);
        match r {
            Err(e) => (s1, Err(e)),
            Ok(_) => run_tokens(s1, (fuel - 1) as nat),
        }
    }
}

/// Decodes blocks until the input is used up.  Every block header uses at
/// least three bits, so `fuel` above the unread bit count is never exhausted.
pub open spec fn run_blocks(s: LzxModel, fuel: nat) -> (LzxModel, Result<(), LzxDecodeError>)
    decreases fuel,
{
    if s.input_offset >= s.input.len() {
        (s, Ok(()))
    } else if fuel == 0 {
        (s, Err(LzxDecodeError::InputTooShort))
    } else {
        let (s1, r1) = read_block_header(s);
        match r1 {
            Err(e) => (s1, Err(e)),
            Ok(_) => {
                let (s2, r2) = if s1.block_type == LzxBlockType::Uncompressed {
                    copy_uncompressed_block(s1)
                } else {
                    run_tokens(s1, (s1.block_end - s1.output_offset) as nat)
                };
                match r2 {
                    Err(e) => (s2, Err(e)),
                    Ok(_) => run_blocks(s2, (fuel - 1) as nat),
                }
            },
        }
    }
}

/// The E8 call target rewritten at `offset`.
pub open spec fn translated_target(target: i32, offset: int) -> i32 {
    if target >= 0 {
        if target < LZX_WIM_MAGIC_FILESIZE { (target - offset) as i32 } else { target }
    } else if target >= -offset {
        (target + LZX_WIM_MAGIC_FILESIZE) as i32
    } else {
        target
    }
}

/// `out` with the little-endian bytes of `v` written at `at`.
pub open spec fn put_u32(out: Seq<u8>, at: int, v: u32) -> Seq<u8> {
    out.update(at, (v & 0xff) as u8).update(at + 1, ((v >> 8u32) & 0xff) as u8)
        .update(at + 2, ((v >> 16u32) & 0xff) as u8).update(at + 3, ((v >> 24u32) & 0xff) as u8)
}

/// Undoes WIM's E8 call-target rewriting from `offset` up to `limit`.
pub open spec fn translate_from(out: Seq<u8>, offset: int, limit: int) -> Seq<u8>
    decreases (if offset < limit { limit - offset } else { 0 }),
{
    if offset >= limit || offset < 0 {
        out
    } else if out[offset] == 0xe8 {
        let target = le_u32(out, offset + 1) as i32;
        translate_from(put_u32(out, offset + 1, translated_target(target, offset) as u32), offset + 5, limit)
    } else {
        translate_from(out, offset + 1, limit)
    }
}

/// Restores the E8 call targets in the first `len` bytes of `out`.
pub open spec fn translate_jumps(out: Seq<u8>, len: int) -> Seq<u8> {
    if len < 10 { out } else { translate_from(out, 0, len - 10) }
}

/// The E8 pass reads each call site's offset as a signed 32-bit number, so
/// it handles output of at most this many bytes (sites start below 2^31).
pub const E8_PASS_LIMIT: usize = 0x8000_000a;

/// The number of bytes the blocks of `input` decode to in a buffer holding
/// `out`, when they decode; 0 when they do not.
pub open spec fn decoded_len(input: Seq<u8>, out: Seq<u8>) -> int {
    let (s, r) = run_blocks(initial_state(input, out), (input.len() * 8 + 1) as nat);
    if r is Ok {
        s.output_offset
    } else {
        0
    }
}

/// Result of decompressing `input` into a buffer that holds `out`: the
/// buffer's final contents and the outcome.
pub open spec fn lzx_decompress(input: Seq<u8>, out: Seq<u8>) -> (Seq<u8>, Result<usize, LzxDecodeError>) {
    if input.len() % 2 != 0 {
        (out, Err(LzxDecodeError::OddInputLength))
    } else {
        let (s, r) = run_blocks(initial_state(input, out), (input.len() * 8 + 1) as nat);
        match r {
            Err(e) => (s.output, Err(e)),
            Ok(_) => (translate_jumps(s.output, s.output_offset), Ok(s.output_offset as usize)),
        }
    }
}

} // verus!
