//! LZX decompression used by WIM resources, including the pass that
//! restores the E8 call targets WIM rewrites.
//!
//! `decompress_lzx` is proved to compute `model::lzx_decompress`, the block
//! format written as a state machine over mathematical values.

pub mod huffman;
pub mod model;
pub mod laws;

use crate::bytes::{vec_overwrite, vec_subrange, zeroed_vec};
use huffman::{LzxHuffman, HUFFMAN_BITS};
use model::{
    accumulate, align_for_bytes, consume, copy_match, copy_uncompressed_block, decode_symbol,
    decode_token, footer_bits, get_bits, initial_state, lzx_decompress, match_offset,
    position_base, pretree_loop, decoded_len, E8_PASS_LIMIT, put_u32, read_block_header, read_length_alphabet, read_lengths,
    read_main_alphabet, read_offsets, read_pretree_lengths, read_block_layout, read_block_tables, read_raw_alphabet, read_u16, read_u32,
    remaining_bits, run_blocks, run_tokens, translate_from, translate_jumps, translated_target,
    LzxBlockType, LzxModel, LZX_ALIGNOFFSET_BITS, LZX_ALIGNOFFSET_CODES, LZX_BLOCK_TYPE_BITS,
    LZX_DEFAULT_BLOCK_LEN, LZX_LENGTH_CODES, LZX_MAIN_CODES, LZX_MAIN_LIT_CODES, LZX_POSITION_SLOTS,
    LZX_PRETREE_BITS, LZX_PRETREE_CODES, LZX_REPEATED_OFFSETS, LZX_WIM_MAGIC_FILESIZE,
};
use vstd::arithmetic::power2::pow2;
use vstd::prelude::*;

verus! {

/// Why an LZX stream could not be decoded.
#[derive(Debug, Clone, Copy, PartialEq, Eq, Structural)]
pub enum LzxDecodeError {
    OddInputLength,
    InputTooShort,
    InvalidHuffmanLength,
    IncompleteHuffmanAlphabet,
    InvalidHuffmanCode,
    InvalidBlockType,
    InvalidPretreeRepeat,
    OutputOverflow,
    MatchUnderrun,
}

struct Lzx<'a> {
    input: &'a [u8],
    input_offset: usize,
    output: Vec<u8>,
    output_offset: usize,
    block_end: usize,
    accumulator: u32,
    bits: u8,
    block_type: LzxBlockType,
    repeated_offset: Vec<usize>,
    alignoffset: LzxHuffman,
    pretree: LzxHuffman,
    main: LzxHuffman,
    length: LzxHuffman,
    main_lengths: Vec<u8>,
    length_lengths: Vec<u8>,
    position_base: Vec<usize>,
}

/// A decoded number as a mathematical integer.
spec fn as_int(r: Result<usize, LzxDecodeError>) -> Result<int, LzxDecodeError> {
    match r {
        Ok(v) => Ok(v as int),
        Err(e) => Err(e),
    }
}

spec fn code_has_len(code: Option<Seq<u8>>, n: nat) -> bool {
    match code {
        None => true,
        Some(l) => l.len() == n,
    }
}

impl<'a> Lzx<'a> {
    spec fn model(&self) -> LzxModel {
        LzxModel {
            input: self.input@,
            input_offset: self.input_offset as int,
            output: self.output@,
            output_offset: self.output_offset as int,
            block_end: self.block_end as int,
            accumulator: self.accumulator,
            bits: self.bits,
            block_type: self.block_type,
            repeated_offset: self.repeated_offset@.map_values(|v: usize| v as int),
            alignoffset: self.alignoffset.code(),
            pretree: self.pretree.code(),
            main: self.main.code(),
            length: self.length.code(),
            main_lengths: self.main_lengths@,
            length_lengths: self.length_lengths@,
        }
    }

    /// The output and the current block's layout are the same in both states.
    spec fn same_layout(&self, other: &Self) -> bool {
        &&& self.output@ == other.output@
        &&& self.output_offset == other.output_offset
        &&& self.block_end == other.block_end
        &&& self.block_type == other.block_type
        &&& self.position_base@ == other.position_base@
    }

    spec fn wf(&self) -> bool {
        &&& self.input_offset <= self.input@.len()
        &&& self.output_offset <= self.output@.len()
        &&& self.output@.len() <= isize::MAX
        &&& self.bits <= 31
        &&& self.repeated_offset@.len() == 3
        &&& self.alignoffset.wf() && code_has_len(self.alignoffset.code(), 8)
        &&& self.pretree.wf() && code_has_len(self.pretree.code(), 20)
        &&& self.main.wf() && code_has_len(self.main.code(), 496)
        &&& self.length.wf() && code_has_len(self.length.code(), 249)
        &&& self.main_lengths@.len() == 496
        &&& self.length_lengths@.len() == 249
        &&& self.position_base@.len() == 30
        &&& forall|i: int| 0 <= i < 30 ==> self.position_base@[i] == position_base(i)
        &&& forall|i: int| 0 <= i < 30 ==> self.position_base@[i] <= 0x40000
    }

    fn new(input: &'a [u8], out: &[u8]) -> (r: Self)
        requires
            out@.len() <= isize::MAX,
        ensures
            r.wf(),
            r.model() == initial_state(input@, out@),
    {
        let mut output: Vec<u8> = Vec::new();
        let mut i: usize = 0;
        while i < out.len()
            invariant
                i <= out@.len(),
                output@ == out@.subrange(0, i as int),
            decreases out@.len() - i,
        {
            output.push(out[i]);
            i += 1;
        }
        let mut repeated_offset: Vec<usize> = Vec::new();
        repeated_offset.push(1);
        repeated_offset.push(1);
        repeated_offset.push(1);
        let r = Lzx {
            input,
            input_offset: 0,
            output,
            output_offset: 0,
            block_end: 0,
            accumulator: 0,
            bits: 0,
            block_type: LzxBlockType::Verbatim,
            repeated_offset,
            alignoffset: LzxHuffman::empty(),
            pretree: LzxHuffman::empty(),
            main: LzxHuffman::empty(),
            length: LzxHuffman::empty(),
            main_lengths: zeroed_vec(LZX_MAIN_CODES),
            length_lengths: zeroed_vec(LZX_LENGTH_CODES),
            position_base: make_lzx_position_base(),
        };
        assert(r.model().repeated_offset =~= seq![1int, 1int, 1int]);
        assert(r.model().output =~= out@);
        r
    }

    fn read_u16(&mut self) -> (r: Result<u16, LzxDecodeError>)
        requires
            old(self).wf(),
        ensures
            final(self).wf(),
            (final(self).model(), r) == read_u16(old(self).model()),
            final(self).same_layout(old(self)),
    {
        if self.input.len() - self.input_offset < 2 {
            return Err(LzxDecodeError::InputTooShort);
        }
        let b0 = self.input[self.input_offset];
        let b1 = self.input[self.input_offset + 1];
        self.input_offset += 2;
        Ok(((b0 as u16) | ((b1 as u16) << 8u16)) as u16)
    }

    fn read_u32(&mut self) -> (r: Result<u32, LzxDecodeError>)
        requires
            old(self).wf(),
        ensures
            final(self).wf(),
            (final(self).model(), r) == read_u32(old(self).model()),
            final(self).same_layout(old(self)),
    {
        if self.input.len() - self.input_offset < 4 {
            return Err(LzxDecodeError::InputTooShort);
        }
        let o = self.input_offset;
        let v = (self.input[o] as u32) | ((self.input[o + 1] as u32) << 8u32) | ((self.input[o + 2] as u32) << 16u32) | ((self.input[o + 3] as u32) << 24u32);
        self.input_offset += 4;
        Ok(v)
    }

    fn accumulate(&mut self, needed: u8) -> (r: Result<u32, LzxDecodeError>)
        requires
            old(self).wf(),
        ensures
            final(self).wf(),
            (final(self).model(), r) == accumulate(old(self).model(), needed),
            final(self).same_layout(old(self)),
            remaining_bits(final(self).model()) == remaining_bits(old(self).model()),
            r is Ok ==> needed <= 16,
            r matches Ok(v) ==> v < 65536,
    {
        if needed as usize > HUFFMAN_BITS {
            return Err(LzxDecodeError::InvalidHuffmanCode);
        }
        if self.bits < needed && self.input_offset < self.input.len() {
            let word = self.read_u16()?;
            self.accumulator = self.accumulator | ((word as u32) << ((16 - self.bits) as u32));
            self.bits = self.bits + 16;
        }
        let acc = self.accumulator;
        assert(acc >> 16u32 < 65536) by (bit_vector);
        Ok(acc >> 16u32)
    }

    fn consume(&mut self, bits: u8) -> (r: Result<(), LzxDecodeError>)
        requires
            old(self).wf(),
        ensures
            final(self).wf(),
            (final(self).model(), r) == consume(old(self).model(), bits),
            final(self).same_layout(old(self)),
            remaining_bits(final(self).model()) == remaining_bits(old(self).model()) - if r is Ok { bits as int } else { 0 },
    {
        if bits > self.bits {
            return Err(LzxDecodeError::InputTooShort);
        }
        self.accumulator = self.accumulator << (bits as u32);
        self.bits = self.bits - bits;
        Ok(())
    }

    fn get_bits(&mut self, bits: u8) -> (r: Result<usize, LzxDecodeError>)
        requires
            old(self).wf(),
        ensures
            final(self).wf(),
            (final(self).model(), as_int(r)) == get_bits(old(self).model(), bits),
            final(self).same_layout(old(self)),
            remaining_bits(final(self).model()) == remaining_bits(old(self).model()) - if r is Ok { bits as int } else { 0 },
            r matches Ok(v) ==> v < 65536,
    {
        if bits == 0 {
            return Ok(0);
        }
        let normalized = self.accumulate(bits)?;
        self.consume(bits)?;
        let v = normalized >> ((16 - bits) as u32);
        assert(normalized == old(self).model().accumulator >> 16u32 || normalized == accumulate(old(self).model(), bits).0.accumulator >> 16u32);
        assert(v < 65536) by (bit_vector)
            requires v == normalized >> ((16 - bits) as u32), normalized < 65536;
        Ok(v as usize)
    }

    /// Skips `padding` bits, then the rest of the bits already loaded.
    fn align_for_bytes(&mut self, padding: u8) -> (r: Result<(), LzxDecodeError>)
        requires
            old(self).wf(),
        ensures
            final(self).wf(),
            (final(self).model(), r) == align_for_bytes(old(self).model(), padding),
            final(self).same_layout(old(self)),
            remaining_bits(final(self).model()) <= remaining_bits(old(self).model()),
    {
        proof {
            reveal(align_for_bytes);
        }
        self.get_bits(padding)?;
        let loaded = self.bits;
        self.consume(loaded)
    }

    fn decode_pretree(&mut self) -> (r: Result<usize, LzxDecodeError>)
        requires
            old(self).wf(),
        ensures
            final(self).wf(),
            (final(self).model(), as_int(r)) == decode_symbol(old(self).model(), old(self).model().pretree),
            final(self).same_layout(old(self)),
            remaining_bits(final(self).model()) <= remaining_bits(old(self).model()),
            r matches Ok(v) ==> v < 65536,
    {
        proof {
            reveal(decode_symbol);
        }
        let huf = self.accumulate(HUFFMAN_BITS as u8)?;
        let (raw, len) = self.pretree.decode(huf)?;
        self.consume(len)?;
        Ok(raw as usize)
    }

    fn decode_alignoffset(&mut self) -> (r: Result<usize, LzxDecodeError>)
        requires
            old(self).wf(),
        ensures
            final(self).wf(),
            (final(self).model(), as_int(r)) == decode_symbol(old(self).model(), old(self).model().alignoffset),
            final(self).same_layout(old(self)),
            remaining_bits(final(self).model()) <= remaining_bits(old(self).model()),
            r matches Ok(v) ==> v < 65536,
    {
        proof {
            reveal(decode_symbol);
        }
        let huf = self.accumulate(HUFFMAN_BITS as u8)?;
        let (raw, len) = self.alignoffset.decode(huf)?;
        self.consume(len)?;
        Ok(raw as usize)
    }

    fn decode_main(&mut self) -> (r: Result<usize, LzxDecodeError>)
        requires
            old(self).wf(),
        ensures
            final(self).wf(),
            (final(self).model(), as_int(r)) == decode_symbol(old(self).model(), old(self).model().main),
            final(self).same_layout(old(self)),
            remaining_bits(final(self).model()) <= remaining_bits(old(self).model()),
            r matches Ok(v) ==> v < 65536,
    {
        proof {
            reveal(decode_symbol);
        }
        let huf = self.accumulate(HUFFMAN_BITS as u8)?;
        let (raw, len) = self.main.decode(huf)?;
        self.consume(len)?;
        Ok(raw as usize)
    }

    fn decode_length(&mut self) -> (r: Result<usize, LzxDecodeError>)
        requires
            old(self).wf(),
        ensures
            final(self).wf(),
            (final(self).model(), as_int(r)) == decode_symbol(old(self).model(), old(self).model().length),
            final(self).same_layout(old(self)),
            remaining_bits(final(self).model()) <= remaining_bits(old(self).model()),
            r matches Ok(v) ==> v < 65536,
    {
        proof {
            reveal(decode_symbol);
        }
        let huf = self.accumulate(HUFFMAN_BITS as u8)?;
        let (raw, len) = self.length.decode(huf)?;
        self.consume(len)?;
        Ok(raw as usize)
    }

    /// Reads `count` code lengths of `bits` bits each and builds their table.
    fn read_raw_alphabet(&mut self, count: usize, bits: u8) -> (r: Result<LzxHuffman, LzxDecodeError>)
        requires
            old(self).wf(),
            2 <= count <= 496,
        ensures
            final(self).wf(),
            final(self).model() == read_raw_alphabet(old(self).model(), count as nat, bits).0,
            match r {
                Ok(t) => t.wf() && read_raw_alphabet(old(self).model(), count as nat, bits).1 == Ok::<Seq<u8>, LzxDecodeError>(t.code()->0)
                    && t.code() is Some && t.code()->0.len() == count,
                Err(e) => read_raw_alphabet(old(self).model(), count as nat, bits).1 == Err::<Seq<u8>, LzxDecodeError>(e),
            },
            final(self).same_layout(old(self)),
            remaining_bits(final(self).model()) <= remaining_bits(old(self).model()),
    {
        proof {
            reveal(read_raw_alphabet);
        }
        let mut lengths = zeroed_vec(count);
        let ghost start = self.model();
        let mut index: usize = 0;
        while index < count
            invariant
                self.wf(),
                index <= count,
                lengths@.len() == count,
                start == old(self).model(),
                read_lengths(self.model(), lengths@, index as int, bits) == read_lengths(start, Seq::new(count as nat, |i: int| 0u8), 0, bits),
                self.same_layout(old(self)),
                remaining_bits(self.model()) <= remaining_bits(start),
            decreases count - index,
        {
            proof {
                reveal(read_raw_alphabet);
            }
            let v = self.get_bits(bits)?;
            lengths.set(index, v as u8);
            index += 1;
        }
        LzxHuffman::from_lengths(&lengths)
    }

    /// Reads a pretree, then the lengths it codes as deltas from `previous`.
    fn read_pretree_lengths(&mut self, previous: &Vec<u8>) -> (r: Result<Vec<u8>, LzxDecodeError>)
        requires
            old(self).wf(),
            previous@.len() <= 496,
        ensures
            final(self).wf(),
            final(self).model() == read_pretree_lengths(old(self).model(), previous@).0,
            match r {
                Ok(v) => read_pretree_lengths(old(self).model(), previous@).1 == Ok::<Seq<u8>, LzxDecodeError>(v@)
                    && v@.len() == previous@.len(),
                Err(e) => read_pretree_lengths(old(self).model(), previous@).1 == Err::<Seq<u8>, LzxDecodeError>(e),
            },
            final(self).same_layout(old(self)),
            remaining_bits(final(self).model()) <= remaining_bits(old(self).model()),
    {
        proof {
            reveal(read_pretree_lengths);
        }
        let pre = self.read_raw_alphabet(LZX_PRETREE_CODES, LZX_PRETREE_BITS)?;
        self.pretree = pre;
        let ghost start = self.model();
        assert(read_pretree_lengths(old(self).model(), previous@) == pretree_loop(start, previous@, 0, 0));
        let n = previous.len();
        let mut lengths = vec_subrange(previous, 0, n);
        assert(lengths@ =~= previous@);
        let mut duplicate: usize = 0;
        let mut index: usize = 0;
        while index < n
            invariant
                self.wf(),
                index <= n,
                n == previous@.len(),
                lengths@.len() == n,
                duplicate <= 65600,
                pretree_loop(self.model(), lengths@, index as int, duplicate as int) == read_pretree_lengths(old(self).model(), previous@),
                self.same_layout(old(self)),
                remaining_bits(self.model()) <= remaining_bits(old(self).model()),
            decreases n - index,
        {
            if duplicate != 0 {
                if index == 0 {
                    return Err(LzxDecodeError::InvalidPretreeRepeat);
                }
                let prev = lengths[index - 1];
                lengths.set(index, prev);
                duplicate -= 1;
                index += 1;
                continue;
            }
            let code = self.decode_pretree()?;
            let length: u8 = if code <= 16 {
                ((lengths[index] as usize + 17 - code) % 17) as u8
            } else if code == 17 {
                duplicate = self.get_bits(4)? + 3;
                0
            } else if code == 18 {
                duplicate = self.get_bits(5)? + 19;
                0
            } else if code == 19 {
                duplicate = self.get_bits(1)? + 3;
                let code2 = self.decode_pretree()?;
                if code2 > 16 {
                    return Err(LzxDecodeError::InvalidPretreeRepeat);
                }
                ((lengths[index] as usize + 17 - code2) % 17) as u8
            } else {
                return Err(LzxDecodeError::InvalidPretreeRepeat);
            };
            lengths.set(index, length);
            index += 1;
        }
        if duplicate != 0 {
            return Err(LzxDecodeError::InvalidPretreeRepeat);
        }
        Ok(lengths)
    }

    /// Reads the main alphabet in its literal and match-header halves.
    fn read_main_alphabet(&mut self) -> (r: Result<(), LzxDecodeError>)
        requires
            old(self).wf(),
        ensures
            final(self).wf(),
            (final(self).model(), r) == read_main_alphabet(old(self).model()),
            final(self).same_layout(old(self)),
            remaining_bits(final(self).model()) <= remaining_bits(old(self).model()),
    {
        proof {
            reveal(read_main_alphabet);
        }
        let literal_previous = vec_subrange(&self.main_lengths, 0, LZX_MAIN_LIT_CODES);
        let literal = self.read_pretree_lengths(&literal_previous)?;
        let ghost s1 = self.model();
        vec_overwrite(&mut self.main_lengths, 0, &literal);
        assert(self.main_lengths@ =~= literal@ + s1.main_lengths.subrange(LZX_MAIN_LIT_CODES as int, LZX_MAIN_CODES as int));
        let remainder_previous = vec_subrange(&self.main_lengths, LZX_MAIN_LIT_CODES, LZX_MAIN_CODES);
        let remainder = self.read_pretree_lengths(&remainder_previous)?;
        let ghost s3 = self.model();
        vec_overwrite(&mut self.main_lengths, LZX_MAIN_LIT_CODES, &remainder);
        assert(self.main_lengths@ =~= s3.main_lengths.subrange(0, LZX_MAIN_LIT_CODES as int) + remainder@);
        let table = LzxHuffman::from_lengths(&self.main_lengths)?;
        self.main = table;
        Ok(())
    }

    fn read_length_alphabet(&mut self) -> (r: Result<(), LzxDecodeError>)
        requires
            old(self).wf(),
        ensures
            final(self).wf(),
            (final(self).model(), r) == read_length_alphabet(old(self).model()),
            final(self).same_layout(old(self)),
            remaining_bits(final(self).model()) <= remaining_bits(old(self).model()),
    {
        proof {
            reveal(read_length_alphabet);
        }
        let previous = vec_subrange(&self.length_lengths, 0, LZX_LENGTH_CODES);
        assert(previous@ =~= self.length_lengths@);
        let lengths = self.read_pretree_lengths(&previous)?;
        self.length_lengths = lengths;
        let table = LzxHuffman::from_lengths(&self.length_lengths)?;
        self.length = table;
        Ok(())
    }

    /// Reads the block type and length.
    fn read_block_layout(&mut self) -> (r: Result<(), LzxDecodeError>)
        requires
            old(self).wf(),
        ensures
            final(self).wf(),
            (final(self).model(), r) == read_block_layout(old(self).model()),
            final(self).output@ == old(self).output@,
            final(self).output_offset == old(self).output_offset,
            final(self).position_base@ == old(self).position_base@,
            remaining_bits(final(self).model()) <= remaining_bits(old(self).model()),
            r is Ok ==> remaining_bits(final(self).model()) < remaining_bits(old(self).model()),
            r is Ok ==> final(self).output_offset <= final(self).block_end <= final(self).output@.len(),
    {
        proof {
            reveal(read_block_layout);
        }
        let kind = self.get_bits(LZX_BLOCK_TYPE_BITS)?;
        let block_type = if kind == 1 {
            LzxBlockType::Verbatim
        } else if kind == 2 {
            LzxBlockType::AlignedOffset
        } else if kind == 3 {
            LzxBlockType::Uncompressed
        } else {
            return Err(LzxDecodeError::InvalidBlockType);
        };
        self.block_type = block_type;
        let default_len = self.get_bits(1)?;
        let block_len: usize = if default_len != 0 {
            LZX_DEFAULT_BLOCK_LEN
        } else {
            let high = self.get_bits(8)?;
            let low = self.get_bits(8)?;
            high * 256 + low
        };
        self.block_end = self.output_offset + block_len;
        if self.block_end > self.output.len() {
            return Err(LzxDecodeError::OutputOverflow);
        }
        Ok(())
    }

    /// Reads the tables, or the repeated offsets, that the block needs.
    fn read_block_tables(&mut self) -> (r: Result<(), LzxDecodeError>)
        requires
            old(self).wf(),
        ensures
            final(self).wf(),
            (final(self).model(), r) == read_block_tables(old(self).model()),
            final(self).same_layout(old(self)),
            remaining_bits(final(self).model()) <= remaining_bits(old(self).model()),
    {
        proof {
            reveal(read_block_tables);
        }
        match self.block_type {
            LzxBlockType::AlignedOffset => {
                let table = self.read_raw_alphabet(LZX_ALIGNOFFSET_CODES, LZX_ALIGNOFFSET_BITS)?;
                self.alignoffset = table;
                self.read_main_alphabet()?;
                self.read_length_alphabet()
            },
            LzxBlockType::Verbatim => {
                self.read_main_alphabet()?;
                self.read_length_alphabet()
            },
            LzxBlockType::Uncompressed => {
                self.align_for_bytes(1)?;
                self.read_repeated_offsets()
            },
        }
    }

    /// Reads a block header and the tables the block needs.
    fn read_block_header(&mut self) -> (r: Result<(), LzxDecodeError>)
        requires
            old(self).wf(),
        ensures
            final(self).wf(),
            (final(self).model(), r) == read_block_header(old(self).model()),
            final(self).output@ == old(self).output@,
            final(self).output_offset == old(self).output_offset,
            final(self).position_base@ == old(self).position_base@,
            r is Ok ==> remaining_bits(final(self).model()) < remaining_bits(old(self).model()),
            r is Ok ==> final(self).output_offset <= final(self).block_end <= final(self).output@.len(),
    {
        proof {
            reveal(read_block_header);
        }
        self.read_block_layout()?;
        self.read_block_tables()
    }

    /// Reads the three repeated offsets stored in an uncompressed block header.
    fn read_repeated_offsets(&mut self) -> (r: Result<(), LzxDecodeError>)
        requires
            old(self).wf(),
        ensures
            final(self).wf(),
            (final(self).model(), r) == read_offsets(old(self).model(), 0),
            final(self).same_layout(old(self)),
            remaining_bits(final(self).model()) <= remaining_bits(old(self).model()),
    {
        let mut index: usize = 0;
        while index < LZX_REPEATED_OFFSETS
            invariant
                self.wf(),
                index <= 3,
                read_offsets(self.model(), index as int) == read_offsets(old(self).model(), 0),
                self.same_layout(old(self)),
                remaining_bits(self.model()) <= remaining_bits(old(self).model()),
            decreases 3 - index,
        {
            let ghost before = self.model();
            let value = self.read_u32()?;
            self.repeated_offset.set(index, value as usize);
            assert(self.model().repeated_offset =~= before.repeated_offset.update(index as int, value as int));
            index += 1;
        }
        Ok(())
    }

    /// Copies the stored bytes of an uncompressed block to the output.
    fn copy_uncompressed_block(&mut self) -> (r: Result<(), LzxDecodeError>)
        requires
            old(self).wf(),
            old(self).block_end <= old(self).output@.len(),
        ensures
            (final(self).model(), r) == copy_uncompressed_block(old(self).model()),
            final(self).output@.len() == old(self).output@.len(),
            r is Ok ==> final(self).wf(),
            r is Ok ==> remaining_bits(final(self).model()) <= remaining_bits(old(self).model()),
    {
        proof {
            reveal(copy_uncompressed_block);
        }
        if self.block_end < self.output_offset {
            return Err(LzxDecodeError::OutputOverflow);
        }
        let len = self.block_end - self.output_offset;
        if len > self.input.len() - self.input_offset {
            return Err(LzxDecodeError::InputTooShort);
        }
        let ghost s = self.model();
        let source_end = self.input_offset + len;
        let start = self.output_offset;
        let mut i: usize = 0;
        while i < len
            invariant
                s == old(self).model(),
                self.model() == (LzxModel { output: self.output@, ..s }),
                s.block_end <= s.output.len(),
                self.wf(),
                start == s.output_offset,
                len == s.block_end - s.output_offset,
                source_end == s.input_offset + len,
                source_end <= s.input.len(),
                i <= len,
                self.output@.len() == s.output.len(),
                forall|j: int| 0 <= j < s.output.len() ==> #[trigger] self.output@[j] == if start <= j < start + i {
                    s.input[s.input_offset + (j - start)]
                } else {
                    s.output[j]
                },
            decreases len - i,
        {
            let byte = self.input[self.input_offset + i];
            self.output.set(start + i, byte);
            i += 1;
        }
        self.input_offset = source_end;
        self.output_offset = self.block_end;
        assert(self.output@ =~= Seq::new(s.output.len(), |j: int|
            if s.output_offset <= j < s.block_end { s.input[s.input_offset + (j - s.output_offset)] } else { s.output[j] }));
        if len % 2 != 0 {
            if self.input_offset >= self.input.len() {
                return Err(LzxDecodeError::InputTooShort);
            }
            self.input_offset = self.input_offset + 1;
        }
        Ok(())
    }

    /// Match offset for `slot`, updating the repeated offsets.
    fn match_offset(&mut self, slot: usize) -> (r: Result<usize, LzxDecodeError>)
        requires
            old(self).wf(),
            slot < LZX_POSITION_SLOTS,
        ensures
            final(self).wf(),
            (final(self).model(), as_int(r)) == match_offset(old(self).model(), slot as int),
            final(self).output@ == old(self).output@,
            final(self).output_offset == old(self).output_offset,
            final(self).block_end == old(self).block_end,
            final(self).position_base@ == old(self).position_base@,
            remaining_bits(final(self).model()) <= remaining_bits(old(self).model()),
    {
        proof {
            reveal(match_offset);
        }
        if slot < LZX_REPEATED_OFFSETS {
            let offset = self.repeated_offset[slot];
            let first = self.repeated_offset[0];
            self.repeated_offset.set(slot, first);
            self.repeated_offset.set(0, offset);
            assert(self.model().repeated_offset =~= old(self).model().repeated_offset.update(slot as int, first as int).update(0, offset as int));
            return Ok(offset);
        }
        let offset_bits = lzx_footer_bits(slot);
        let extra: usize = if self.block_type == LzxBlockType::AlignedOffset && offset_bits >= 3 {
            let verbatim = self.get_bits((offset_bits - 3) as u8)?;
            let aligned = self.decode_alignoffset()?;
            verbatim * 8 + aligned
        } else {
            self.get_bits(offset_bits as u8)?
        };
        let base = self.position_base[slot];
        if base + extra < 2 {
            return Err(LzxDecodeError::MatchUnderrun);
        }
        let offset = base + extra - 2;
        let r0 = self.repeated_offset[0];
        let r1 = self.repeated_offset[1];
        self.repeated_offset.set(2, r1);
        self.repeated_offset.set(1, r0);
        self.repeated_offset.set(0, offset);
        assert(self.model().repeated_offset =~= seq![offset as int, r0 as int, r1 as int]);
        Ok(offset)
    }

    /// Decodes one literal or match into the output.
    #[verifier::rlimit(30)]
    fn decode_token(&mut self) -> (r: Result<(), LzxDecodeError>)
        requires
            old(self).wf(),
            old(self).output_offset < old(self).block_end <= old(self).output@.len(),
        ensures
            (final(self).model(), r) == decode_token(old(self).model()),
            final(self).output@.len() == old(self).output@.len(),
            final(self).block_end == old(self).block_end,
            r is Ok ==> final(self).wf(),
            r is Ok ==> old(self).output_offset < final(self).output_offset <= old(self).block_end,
            r is Ok ==> remaining_bits(final(self).model()) <= remaining_bits(old(self).model()),
    {
        proof {
            reveal(decode_token);
        }
        let main = self.decode_main()?;
        if main < LZX_MAIN_LIT_CODES {
            if self.output_offset >= self.output.len() {
                return Err(LzxDecodeError::OutputOverflow);
            }
            let at = self.output_offset;
            self.output.set(at, main as u8);
            self.output_offset = at + 1;
            return Ok(());
        }
        let symbol = main - LZX_MAIN_LIT_CODES;
        let length_header = symbol & 7;
        assert(symbol & 7 == symbol % 8) by (bit_vector);
        let length = if length_header == 7 {
            self.decode_length()?
        } else {
            0
        };
        let match_length = length_header + 2 + length;
        let position_slot = symbol >> 3;
        assert(symbol >> 3 == symbol / 8) by (bit_vector);
        if position_slot >= LZX_POSITION_SLOTS {
            return Err(LzxDecodeError::InvalidHuffmanCode);
        }
        let offset = self.match_offset(position_slot)?;
        if offset == 0 || offset > self.output_offset {
            return Err(LzxDecodeError::MatchUnderrun);
        }
        let end = self.output_offset + match_length;
        if end > self.output.len() || end > self.block_end {
            return Err(LzxDecodeError::OutputOverflow);
        }
        let ghost s3 = self.model();
        while self.output_offset < end
            invariant
                self.wf(),
                self.output@.len() == s3.output.len(),
                s3.output.len() == old(self).output@.len(),
                self.model() == (LzxModel { output: self.output@, output_offset: self.output_offset as int, ..s3 }),
                s3.output_offset <= self.output_offset <= end <= self.output@.len(),
                0 < offset <= s3.output_offset,
                copy_match(self.output@, self.output_offset as int, end as int, offset as int)
                    == copy_match(s3.output, s3.output_offset, end as int, offset as int),
            decreases end - self.output_offset,
        {
            let at = self.output_offset;
            let byte = self.output[at - offset];
            self.output.set(at, byte);
            self.output_offset = at + 1;
        }
        Ok(())
    }

    /// Restores the E8 call targets WIM rewrote in the decoded bytes.
    fn translate_jumps(&mut self)
        requires
            old(self).wf(),
            old(self).output_offset <= E8_PASS_LIMIT,
        ensures
            final(self).output@ == translate_jumps(old(self).output@, old(self).output_offset as int),
            final(self).output@.len() == old(self).output@.len(),
            final(self).output_offset == old(self).output_offset,
    {
        if self.output_offset < 10 {
            return;
        }
        let limit = self.output_offset - 10;
        let ghost out0 = self.output@;
        let mut offset: usize = 0;
        while offset < limit
            invariant
                self.output_offset == old(self).output_offset,
                limit + 10 == self.output_offset <= self.output@.len(),
                self.output_offset <= E8_PASS_LIMIT,
                self.output@.len() == old(self).output@.len(),
                offset <= limit + 5,
                translate_from(self.output@, offset as int, limit as int) == translate_from(out0, 0, limit as int),
                out0 == old(self).output@,
            decreases limit + 5 - offset,
        {
            if self.output[offset] == 0xe8 {
                let raw = (self.output[offset + 1] as u32) | ((self.output[offset + 2] as u32) << 8u32)
                    | ((self.output[offset + 3] as u32) << 16u32) | ((self.output[offset + 4] as u32) << 24u32);
                let target = raw as i32;
                let translated: i32 = if target >= 0 {
                    if target < LZX_WIM_MAGIC_FILESIZE {
                        target - offset as i32
                    } else {
                        target
                    }
                } else if target >= -(offset as i32) {
                    target + LZX_WIM_MAGIC_FILESIZE
                } else {
                    target
                };
                assert(translated == translated_target(target, offset as int));
                let value = translated as u32;
                self.output.set(offset + 1, (value & 0xff) as u8);
                self.output.set(offset + 2, ((value >> 8u32) & 0xff) as u8);
                self.output.set(offset + 3, ((value >> 16u32) & 0xff) as u8);
                self.output.set(offset + 4, ((value >> 24u32) & 0xff) as u8);
                offset += 5;
            } else {
                offset += 1;
            }
        }
    }

    fn has_input(&self) -> (r: bool)
        ensures
            r == (self.input_offset < self.input@.len()),
    {
        self.input_offset < self.input.len()
    }

    fn is_uncompressed_block(&self) -> (r: bool)
        ensures
            r == (self.block_type == LzxBlockType::Uncompressed),
    {
        self.block_type == LzxBlockType::Uncompressed
    }

    fn block_finished(&self) -> (r: bool)
        ensures
            r == (self.output_offset >= self.block_end),
    {
        self.output_offset >= self.block_end
    }

    fn output_offset(&self) -> (r: usize)
        ensures
            r == self.output_offset,
    {
        self.output_offset
    }

    /// Decodes every block of the input.
    fn decode_blocks(&mut self) -> (r: Result<(), LzxDecodeError>)
        requires
            old(self).wf(),
            old(self).input_offset == 0,
            old(self).bits == 0,
        ensures
            (final(self).model(), r) == run_blocks(old(self).model(), (old(self).input@.len() * 8 + 1) as nat),
            final(self).output@.len() == old(self).output@.len(),
            r is Ok ==> final(self).wf(),
    {
        let ghost fuel0: nat = (self.input@.len() * 8 + 1) as nat;
        let ghost mut fuel: nat = fuel0;
        while self.has_input()
            invariant
                self.wf(),
                self.output@.len() == old(self).output@.len(),
                fuel > remaining_bits(self.model()),
                fuel0 == (old(self).input@.len() * 8 + 1) as nat,
                run_blocks(self.model(), fuel) == run_blocks(old(self).model(), fuel0),
            decreases fuel,
        {
            let ghost outer = self.model();
            let header = self.read_block_header();
            match header {
                Ok(()) => {},
                Err(e) => {
                    assert(run_blocks(outer, fuel) == (self.model(), Err::<(), LzxDecodeError>(e)));
                    return Err(e);
                },
            }
            assert(read_block_header(outer).1 is Ok);
            if self.is_uncompressed_block() {
                match self.copy_uncompressed_block() {
                    Ok(()) => {},
                    Err(e) => {
                        assert(run_blocks(outer, fuel) == (self.model(), Err::<(), LzxDecodeError>(e)));
                        return Err(e);
                    },
                }
            } else {
                let ghost s1 = self.model();
                let ghost tokens0: nat = (self.block_end - self.output_offset) as nat;
                let ghost mut tokens: nat = tokens0;
                while !self.block_finished()
                    invariant
                        self.wf(),
                        self.output@.len() == old(self).output@.len(),
                        self.block_end == s1.block_end,
                        self.output_offset <= self.block_end <= self.output@.len(),
                        tokens >= self.block_end - self.output_offset,
                        remaining_bits(self.model()) <= remaining_bits(s1),
                        run_tokens(self.model(), tokens) == run_tokens(s1, tokens0),
                        tokens0 == s1.block_end - s1.output_offset,
                        fuel > remaining_bits(outer),
                        outer.input_offset < outer.input.len(),
                        read_block_header(outer).0 == s1,
                        read_block_header(outer).1 is Ok,
                        s1.block_type != LzxBlockType::Uncompressed,
                        run_blocks(outer, fuel) == run_blocks(old(self).model(), fuel0),
                        fuel0 == (old(self).input@.len() * 8 + 1) as nat,
                    decreases tokens,
                {
                    match self.decode_token() {
                        Ok(()) => {},
                        Err(e) => {
                            assert(run_blocks(outer, fuel) == (self.model(), Err::<(), LzxDecodeError>(e)));
                            return Err(e);
                        },
                    }
                    proof {
                        tokens = (tokens - 1) as nat;
                    }
                }
            }
            proof {
                fuel = (fuel - 1) as nat;
            }
        }
        Ok(())
    }
}

/// Decompresses the LZX stream `input` into `out`, returning the number of
/// bytes written.  On failure `out` keeps what was decoded before the error.
/// The E8 pass takes call-site offsets as signed 32-bit numbers, so the
/// decoded output must end within `E8_PASS_LIMIT` bytes, which any buffer
/// no longer than that ensures.
pub fn decompress_lzx(input: &[u8], out: &mut [u8]) -> (r: Result<usize, LzxDecodeError>)
    requires
        old(out)@.len() <= isize::MAX,
        old(out)@.len() <= E8_PASS_LIMIT || decoded_len(input@, old(out)@) <= E8_PASS_LIMIT,
    ensures
        (final(out)@, r) == lzx_decompress(input@, old(out)@),
{
    if input.len() % 2 != 0 {
        return Err(LzxDecodeError::OddInputLength);
    }
    let mut lzx = Lzx::new(input, out);
    match lzx.decode_blocks() {
        Err(e) => {
            copy_into(out, &lzx.output);
            Err(e)
        },
        Ok(()) => {
            lzx.translate_jumps();
            copy_into(out, &lzx.output);
            Ok(lzx.output_offset())
        },
    }
}

/// Overwrites `dst` with `src`, which has the same length.
fn copy_into(dst: &mut [u8], src: &Vec<u8>)
    requires
        old(dst)@.len() == src@.len(),
    ensures
        final(dst)@ == src@,
{
    let mut i: usize = 0;
    while i < src.len()
        invariant
            dst@.len() == src@.len(),
            i <= src@.len(),
            forall|j: int| 0 <= j < i ==> dst@[j] == src@[j],
        decreases src@.len() - i,
    {
        dst[i] = src[i];
        i += 1;
    }
    assert(dst@ =~= src@);
}

/// Extra offset bits for a position slot.
fn lzx_footer_bits(position_slot: usize) -> (r: usize)
    ensures
        r == footer_bits(position_slot as int),
{
    if position_slot < 2 {
        0
    } else if position_slot < 38 {
        (position_slot / 2) - 1
    } else {
        17
    }
}

/// Offset base of every position slot.
fn make_lzx_position_base() -> (r: Vec<usize>)
    ensures
        r@.len() == 30,
        forall|i: int| 0 <= i < 30 ==> r@[i] == position_base(i),
        forall|i: int| 0 <= i < 30 ==> r@[i] <= 0x40000,
{
    let mut out: Vec<usize> = Vec::new();
    out.push(0);
    let mut index: usize = 1;
    while index < LZX_POSITION_SLOTS
        invariant
            1 <= index <= 30,
            out@.len() == index,
            forall|i: int| 0 <= i < index ==> out@[i] == position_base(i),
            forall|i: int| 0 <= i < index ==> out@[i] <= i * 8192,
        decreases 30 - index,
    {
        let fb = lzx_footer_bits(index - 1);
        proof {
            vstd::arithmetic::power2::lemma2_to64();
            vstd::arithmetic::power2::lemma_pow2_strictly_increases(fb as nat, 14);
            vstd::bits::lemma_usize_shl_is_mul(1, fb);
        }
        let prev = out[index - 1];
        assert(position_base(index as int) == position_base(index - 1) + pow2(footer_bits(index - 1) as nat));
        assert(1usize << fb == pow2(fb as nat));
        out.push(prev + (1usize << fb));
        index += 1;
    }
    out
}

} // verus!
