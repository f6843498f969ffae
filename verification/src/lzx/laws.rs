//! What the block format promises of whole streams.

use super::model::{
    accumulate, align_for_bytes, copy_match, copy_uncompressed_block, decode_symbol, decode_token, get_bits,
    initial_state, lzx_decompress, match_offset, pretree_loop, put_u32, read_block_header, read_block_layout,
    read_block_tables, read_length_alphabet, read_lengths, read_main_alphabet, read_offsets, read_pretree_lengths,
    read_raw_alphabet, run_blocks, run_tokens, translate_from, translate_jumps, LzxBlockType, LzxModel, footer_bits,
    position_base,
};
use crate::bytes::le_u16;
use vstd::prelude::*;

verus! {

/// The four header bytes of an uncompressed block of `n` bytes (below
/// 65536): block type 3, an explicit 16-bit length, a zero padding bit, and
/// the rest of the second 16-bit word left zero.
pub open spec fn uncompressed_block_header(n: nat) -> Seq<u8> {
    let h = n / 256;
    let l = n % 256;
    seq![((h % 16) * 16 + l / 16) as u8, (0x60 + h / 16) as u8, 0u8, ((l % 16) * 16) as u8]
}

/// An LZX stream of one uncompressed block holding `data`: the header, the
/// three repeated offsets (each 1), the bytes, and a pad byte when their
/// count is odd.
pub open spec fn uncompressed_block(data: Seq<u8>) -> Seq<u8> {
    uncompressed_block_header(data.len()) + seq![1u8, 0, 0, 0, 1, 0, 0, 0, 1, 0, 0, 0] + data + (if data.len() % 2 == 1 {
        seq![0u8]
    } else {
        Seq::<u8>::empty()
    })
}

proof fn lemma_le_u16_bytes(b0: u8, b1: u8)
    ensures
        ((b0 as u16) | ((b1 as u16) << 8u16)) as u16 == b0 + 256 * b1,
{
    assert(((b0 as u16) | ((b1 as u16) << 8u16)) as u16 == b0 + 256 * b1) by (bit_vector);
}

proof fn lemma_header_bits(w0: u32, w1: u32, h: u32, l: u32)
    requires
        h < 256,
        l < 256,
        w0 == 0x6000u32 + h * 16 + l / 16,
        w1 == (l % 16) * 4096,
    ensures
        ((0u32 | (w0 << 16u32)) >> 16u32) >> 13u32 == 3,
        (((0u32 | (w0 << 16u32)) << 3u32) >> 16u32) >> 15u32 == 0,
        ((((0u32 | (w0 << 16u32)) << 3u32) << 1u32) >> 16u32) >> 8u32 == h,
        (((((0u32 | (w0 << 16u32)) << 3u32) << 1u32) << 8u32) | (w1 << 12u32)) >> 16u32 >> 8u32 == l,
{
    assert(((0u32 | (w0 << 16u32)) >> 16u32) >> 13u32 == 3) by (bit_vector)
        requires
            h < 256,
            l < 256,
            w0 == 0x6000u32 + h * 16 + l / 16,
    ;
    assert((((0u32 | (w0 << 16u32)) << 3u32) >> 16u32) >> 15u32 == 0) by (bit_vector)
        requires
            h < 256,
            l < 256,
            w0 == 0x6000u32 + h * 16 + l / 16,
    ;
    assert(((((0u32 | (w0 << 16u32)) << 3u32) << 1u32) >> 16u32) >> 8u32 == h) by (bit_vector)
        requires
            h < 256,
            l < 256,
            w0 == 0x6000u32 + h * 16 + l / 16,
    ;
    assert((((((0u32 | (w0 << 16u32)) << 3u32) << 1u32) << 8u32) | (w1 << 12u32)) >> 16u32 >> 8u32 == l) by (bit_vector)
        requires
            h < 256,
            l < 256,
            w0 == 0x6000u32 + h * 16 + l / 16,
            w1 == (l % 16) * 4096,
    ;
}

/// The layout of the block is read from the first two words: an
/// uncompressed block ending after `n` output bytes.
proof fn lemma_uncompressed_layout(data: Seq<u8>, out: Seq<u8>)
    requires
        data.len() < 65536,
        data.len() <= out.len(),
    ensures
        ({
            let (t, r) = read_block_layout(initial_state(uncompressed_block(data), out));
            &&& r is Ok
            &&& t.input == uncompressed_block(data)
            &&& t.input_offset == 4
            &&& t.bits == 12
            &&& t.block_type == LzxBlockType::Uncompressed
            &&& t.block_end == data.len()
            &&& t.output == out
            &&& t.output_offset == 0
        }),
{
    reveal(read_block_layout);
    let input = uncompressed_block(data);
    let n = data.len();
    let h = n / 256;
    let l = n % 256;
    let s0 = initial_state(input, out);
    assert(input.len() >= 16);
    let b0 = input[0];
    let b1 = input[1];
    let b2 = input[2];
    let b3 = input[3];
    assert(b0 == ((h % 16) * 16 + l / 16) as u8);
    assert(b1 == (0x60 + h / 16) as u8);
    assert(b2 == 0);
    assert(b3 == ((l % 16) * 16) as u8);
    lemma_le_u16_bytes(b0, b1);
    lemma_le_u16_bytes(b2, b3);
    let w0 = le_u16(input, 0);
    let w1 = le_u16(input, 2);
    assert(w0 == 0x6000 + h * 16 + l / 16);
    assert(w1 == (l % 16) * 4096);
    lemma_header_bits(w0 as u32, w1 as u32, h as u32, l as u32);
}

/// After the layout, the padding bit and the rest of the word are skipped
/// and the three repeated offsets read: the stored bytes come next.
proof fn lemma_uncompressed_tables(t: LzxModel, data: Seq<u8>)
    requires
        t.input == uncompressed_block(data),
        t.input_offset == 4,
        t.bits == 12,
        t.block_type == LzxBlockType::Uncompressed,
    ensures
        ({
            let (u, r) = read_block_tables(t);
            &&& r is Ok
            &&& u.input == t.input
            &&& u.input_offset == 16
            &&& u.block_type == t.block_type
            &&& u.block_end == t.block_end
            &&& u.output == t.output
            &&& u.output_offset == t.output_offset
        }),
{
    reveal(read_block_tables);
    reveal(align_for_bytes);
    let (a, ra) = align_for_bytes(t, 1);
    assert(ra is Ok && a.input_offset == 4 && a.input == t.input && a.output == t.output
        && a.output_offset == t.output_offset && a.block_end == t.block_end && a.block_type == t.block_type);
    reveal_with_fuel(read_offsets, 4);
}

/// The stored bytes are copied to the front of the output and the input is
/// used up.
proof fn lemma_uncompressed_copy(u: LzxModel, data: Seq<u8>, out: Seq<u8>)
    requires
        u.input == uncompressed_block(data),
        u.input_offset == 16,
        u.block_end == data.len(),
        u.output == out,
        u.output_offset == 0,
        data.len() <= out.len(),
    ensures
        ({
            let (v, r) = copy_uncompressed_block(u);
            &&& r is Ok
            &&& v.input_offset == v.input.len()
            &&& v.input == u.input
            &&& v.output == data + out.skip(data.len() as int)
            &&& v.output_offset == data.len()
        }),
{
    reveal(copy_uncompressed_block);
    let n = data.len() as int;
    let (v, r) = copy_uncompressed_block(u);
    assert(v.output =~= data + out.skip(n));
}

/// Decompressing a stream of one uncompressed block gives its bytes back, in
/// front of what the buffer held after them, with WIM's E8 call-target
/// restoration applied as to any decoded output.
pub proof fn lemma_uncompressed_block_round_trip(data: Seq<u8>, out: Seq<u8>)
    requires
        data.len() < 65536,
        data.len() <= out.len(),
    ensures
        lzx_decompress(uncompressed_block(data), out) == (
            translate_jumps(data + out.skip(data.len() as int), data.len() as int),
            Ok::<usize, super::LzxDecodeError>(data.len() as usize),
        ),
{
    let input = uncompressed_block(data);
    let s0 = initial_state(input, out);
    let fuel = (input.len() * 8 + 1) as nat;
    lemma_uncompressed_layout(data, out);
    let (t, rt) = read_block_layout(s0);
    lemma_uncompressed_tables(t, data);
    let (u, ru) = read_block_tables(t);
    reveal(read_block_header);
    assert(read_block_header(s0) == (u, ru));
    lemma_uncompressed_copy(u, data, out);
    let (v, rv) = copy_uncompressed_block(u);
    assert(run_blocks(v, (fuel - 1) as nat) == (v, Ok::<(), super::LzxDecodeError>(())));
    assert(run_blocks(s0, fuel) == (v, Ok::<(), super::LzxDecodeError>(())));
}

/// `t` has the same output buffer and position as `s`.
pub open spec fn keeps_output(s: LzxModel, t: LzxModel) -> bool {
    t.output == s.output && t.output_offset == s.output_offset && t.block_end == s.block_end
}

/// `t` went on from `s` writing only before its own output position: the
/// buffer keeps its length, the position does not go back, and every byte
/// from `t`'s position on is as in `s`.
pub open spec fn writes_before_position(s: LzxModel, t: LzxModel) -> bool {
    &&& t.output.len() == s.output.len()
    &&& s.output_offset <= t.output_offset <= t.output.len()
    &&& forall|i: int| t.output_offset <= i < t.output.len() ==> t.output[i] == s.output[i]
}

proof fn lemma_decode_symbol_keeps(s: LzxModel, code: Option<Seq<u8>>)
    ensures
        keeps_output(s, decode_symbol(s, code).0),
        decode_symbol(s, code).1 matches Ok(v) ==> v >= 0,
{
    reveal(decode_symbol);
}

proof fn lemma_read_lengths_keeps(s: LzxModel, lengths: Seq<u8>, index: int, bits: u8)
    ensures
        keeps_output(s, read_lengths(s, lengths, index, bits).0),
    decreases lengths.len() - index,
{
    if 0 <= index < lengths.len() {
        let (s1, r) = get_bits(s, bits);
        if let Ok(v) = r {
            lemma_read_lengths_keeps(s1, lengths.update(index, v as u8), index + 1, bits);
        }
    }
}

proof fn lemma_raw_alphabet_keeps(s: LzxModel, count: nat, bits: u8)
    ensures
        keeps_output(s, read_raw_alphabet(s, count, bits).0),
{
    reveal(read_raw_alphabet);
    lemma_read_lengths_keeps(s, Seq::new(count, |i: int| 0u8), 0, bits);
}

proof fn lemma_pretree_loop_keeps(s: LzxModel, lengths: Seq<u8>, index: int, duplicate: int)
    ensures
        keeps_output(s, pretree_loop(s, lengths, index, duplicate).0),
    decreases lengths.len() - index,
{
    if 0 <= index < lengths.len() {
        if duplicate != 0 {
            if index != 0 {
                lemma_pretree_loop_keeps(s, lengths.update(index, lengths[index - 1]), index + 1, duplicate - 1);
            }
        } else {
            lemma_decode_symbol_keeps(s, s.pretree);
            let (s1, r1) = decode_symbol(s, s.pretree);
            if let Ok(code) = r1 {
                if code <= 16 {
                    lemma_pretree_loop_keeps(s1, lengths.update(index, super::model::delta_length(lengths[index], code)), index + 1, 0);
                } else if code == 17 {
                    let (s2, r2) = get_bits(s1, 4);
                    if let Ok(v) = r2 {
                        lemma_pretree_loop_keeps(s2, lengths.update(index, 0), index + 1, v + 3);
                    }
                } else if code == 18 {
                    let (s2, r2) = get_bits(s1, 5);
                    if let Ok(v) = r2 {
                        lemma_pretree_loop_keeps(s2, lengths.update(index, 0), index + 1, v + 19);
                    }
                } else if code == 19 {
                    let (s2, r2) = get_bits(s1, 1);
                    if let Ok(v) = r2 {
                        lemma_decode_symbol_keeps(s2, s2.pretree);
                        let (s3, r3) = decode_symbol(s2, s2.pretree);
                        if let Ok(code2) = r3 {
                            if code2 <= 16 {
                                lemma_pretree_loop_keeps(
                                    s3,
                                    lengths.update(index, super::model::delta_length(lengths[index], code2)),
                                    index + 1,
                                    v + 3,
                                );
                            }
                        }
                    }
                }
            }
        }
    }
}

proof fn lemma_pretree_lengths_keeps(s: LzxModel, previous: Seq<u8>)
    ensures
        keeps_output(s, read_pretree_lengths(s, previous).0),
{
    reveal(read_pretree_lengths);
    lemma_raw_alphabet_keeps(s, super::model::LZX_PRETREE_CODES as nat, super::model::LZX_PRETREE_BITS);
    let (s1, r1) = read_raw_alphabet(s, super::model::LZX_PRETREE_CODES as nat, super::model::LZX_PRETREE_BITS);
    if let Ok(pre) = r1 {
        lemma_pretree_loop_keeps(LzxModel { pretree: Some(pre), ..s1 }, previous, 0, 0);
    }
}

proof fn lemma_main_alphabet_keeps(s: LzxModel)
    ensures
        keeps_output(s, read_main_alphabet(s).0),
{
    reveal(read_main_alphabet);
    let lit = super::model::LZX_MAIN_LIT_CODES as int;
    lemma_pretree_lengths_keeps(s, s.main_lengths.subrange(0, lit));
    let (s1, r1) = read_pretree_lengths(s, s.main_lengths.subrange(0, lit));
    if let Ok(literal) = r1 {
        let s2 = LzxModel { main_lengths: literal + s1.main_lengths.subrange(lit, s1.main_lengths.len() as int), ..s1 };
        lemma_pretree_lengths_keeps(s2, s2.main_lengths.subrange(lit, s2.main_lengths.len() as int));
    }
}

proof fn lemma_length_alphabet_keeps(s: LzxModel)
    ensures
        keeps_output(s, read_length_alphabet(s).0),
{
    reveal(read_length_alphabet);
    lemma_pretree_lengths_keeps(s, s.length_lengths);
}

proof fn lemma_offsets_keep(s: LzxModel, index: int)
    ensures
        keeps_output(s, read_offsets(s, index).0),
    decreases 3 - index,
{
    if 0 <= index < 3 {
        let (s1, r) = super::model::read_u32(s);
        if let Ok(v) = r {
            lemma_offsets_keep(LzxModel { repeated_offset: s1.repeated_offset.update(index, v as int), ..s1 }, index + 1);
        }
    }
}

/// The tables after a block layout change neither the output, the output
/// position nor the block's end.
proof fn lemma_tables_keep(s1: LzxModel)
    ensures
        keeps_output(s1, read_block_tables(s1).0),
{
    reveal(read_block_tables);
    reveal(align_for_bytes);
    match s1.block_type {
        LzxBlockType::AlignedOffset => {
            lemma_raw_alphabet_keeps(s1, super::model::LZX_ALIGNOFFSET_CODES as nat, super::model::LZX_ALIGNOFFSET_BITS);
            let (a1, ra) = read_raw_alphabet(s1, super::model::LZX_ALIGNOFFSET_CODES as nat, super::model::LZX_ALIGNOFFSET_BITS);
            if let Ok(al) = ra {
                let a2 = LzxModel { alignoffset: Some(al), ..a1 };
                lemma_main_alphabet_keeps(a2);
                lemma_length_alphabet_keeps(read_main_alphabet(a2).0);
            }
        },
        LzxBlockType::Verbatim => {
            lemma_main_alphabet_keeps(s1);
            lemma_length_alphabet_keeps(read_main_alphabet(s1).0);
        },
        LzxBlockType::Uncompressed => {
            let (a1, ra) = align_for_bytes(s1, 1);
            lemma_offsets_keep(a1, 0);
        },
    }
}

/// A block header changes neither the output nor the output position, and
/// one that is read sets the block's end within the buffer.
proof fn lemma_header_keeps(s: LzxModel)
    ensures
        read_block_header(s).0.output == s.output,
        read_block_header(s).0.output_offset == s.output_offset,
        read_block_header(s).1 is Ok ==> read_block_header(s).0.block_end <= s.output.len(),
{
    reveal(read_block_header);
    reveal(read_block_layout);
    let (s1, r1) = read_block_layout(s);
    assert(s1.output == s.output && s1.output_offset == s.output_offset);
    if r1 is Ok {
        assert(s1.block_end <= s1.output.len());
        lemma_tables_keep(s1);
    }
}

proof fn lemma_match_offset_keeps(s: LzxModel, slot: int)
    ensures
        keeps_output(s, match_offset(s, slot).0),
{
    reveal(match_offset);
    let fb = super::model::footer_bits(slot);
    if slot >= super::model::LZX_REPEATED_OFFSETS && s.block_type == LzxBlockType::AlignedOffset && fb >= 3 {
        let (sa, ra) = get_bits(s, (fb - 3) as u8);
        lemma_decode_symbol_keeps(sa, sa.alignoffset);
    }
}

proof fn lemma_copy_match_writes(out: Seq<u8>, i: int, end: int, offset: int)
    requires
        end <= out.len(),
    ensures
        copy_match(out, i, end, offset).len() == out.len(),
        forall|k: int| end <= k < out.len() ==> #[trigger] copy_match(out, i, end, offset)[k] == out[k],
    decreases end - i,
{
    if i < end && i >= 0 {
        lemma_copy_match_writes(out.update(i, out[i - offset]), i + 1, end, offset);
    }
}

proof fn lemma_token_writes(s: LzxModel)
    requires
        decode_token(s).1 is Ok,
        0 <= s.output_offset <= s.output.len(),
    ensures
        writes_before_position(s, decode_token(s).0),
{
    reveal(decode_token);
    lemma_decode_symbol_keeps(s, s.main);
    let (s1, r1) = decode_symbol(s, s.main);
    let main = r1->Ok_0;
    if main < super::model::LZX_MAIN_LIT_CODES {
        let t = decode_token(s).0;
        assert(t.output == s1.output.update(s1.output_offset, main as u8));
        assert(t.output_offset == s.output_offset + 1);
        assert forall|i: int| t.output_offset <= i < t.output.len() implies t.output[i] == s.output[i] by {}
    } else {
        let m = main - super::model::LZX_MAIN_LIT_CODES;
        let header = m % 8;
        if header == 7 {
            lemma_decode_symbol_keeps(s1, s1.length);
        }
        let (s2, r2) = if header == 7 { decode_symbol(s1, s1.length) } else { (s1, Ok(0int)) };
        let length = r2->Ok_0;
        let slot = m / 8;
        lemma_match_offset_keeps(s2, slot);
        let (s3, r3) = match_offset(s2, slot);
        let offset = r3->Ok_0;
        let end = s3.output_offset + (header + 2 + length);
        lemma_copy_match_writes(s3.output, s3.output_offset, end, offset);
        let t = decode_token(s).0;
        assert(s3.output == s.output && s3.output_offset == s.output_offset);
        assert(length >= 0);
        assert(end <= s3.output.len());
        assert(t.output == copy_match(s3.output, s3.output_offset, end, offset));
        assert(t.output_offset == end);
        assert(t.output.len() == s.output.len());
        assert forall|i: int| t.output_offset <= i < t.output.len() implies t.output[i] == s.output[i] by {
            assert(copy_match(s3.output, s3.output_offset, end, offset)[i] == s3.output[i]);
        }
    }
}

proof fn lemma_tokens_write(s: LzxModel, fuel: nat)
    requires
        run_tokens(s, fuel).1 is Ok,
        0 <= s.output_offset <= s.output.len(),
    ensures
        writes_before_position(s, run_tokens(s, fuel).0),
    decreases fuel,
{
    if s.output_offset < s.block_end && fuel > 0 {
        lemma_token_writes(s);
        let s1 = decode_token(s).0;
        lemma_tokens_write(s1, (fuel - 1) as nat);
    }
}

proof fn lemma_uncompressed_writes(s: LzxModel)
    requires
        copy_uncompressed_block(s).1 is Ok,
        0 <= s.output_offset,
        s.block_end <= s.output.len(),
    ensures
        writes_before_position(s, copy_uncompressed_block(s).0),
{
    reveal(copy_uncompressed_block);
    let len = s.block_end - s.output_offset;
    let source_end = s.input_offset + len;
    let out = Seq::new(s.output.len(), |i: int|
        if s.output_offset <= i < s.block_end { s.input[s.input_offset + (i - s.output_offset)] } else { s.output[i] });
    let t = copy_uncompressed_block(s).0;
    assert(t.output == out);
    assert(t.output_offset == s.block_end);
    assert forall|i: int| t.output_offset <= i < t.output.len() implies t.output[i] == s.output[i] by {
        assert(out[i] == s.output[i]);
    }
}

proof fn lemma_blocks_write(s: LzxModel, fuel: nat)
    requires
        run_blocks(s, fuel).1 is Ok,
        0 <= s.output_offset <= s.output.len(),
    ensures
        writes_before_position(s, run_blocks(s, fuel).0),
    decreases fuel,
{
    if s.input_offset < s.input.len() && fuel > 0 {
        lemma_header_keeps(s);
        let s1 = read_block_header(s).0;
        let (s2, r2) = if s1.block_type == LzxBlockType::Uncompressed {
            copy_uncompressed_block(s1)
        } else {
            run_tokens(s1, (s1.block_end - s1.output_offset) as nat)
        };
        if s1.block_type == LzxBlockType::Uncompressed {
            lemma_uncompressed_writes(s1);
        } else {
            lemma_tokens_write(s1, (s1.block_end - s1.output_offset) as nat);
        }
        lemma_blocks_write(s2, (fuel - 1) as nat);
    }
}

proof fn lemma_translate_from_keeps(out: Seq<u8>, offset: int, limit: int)
    requires
        limit + 10 <= out.len(),
    ensures
        translate_from(out, offset, limit).len() == out.len(),
        forall|k: int| limit + 5 <= k < out.len() ==> #[trigger] translate_from(out, offset, limit)[k] == out[k],
    decreases (if offset < limit { limit - offset } else { 0 }),
{
    if offset < limit && offset >= 0 {
        if out[offset] == 0xe8 {
            let target = crate::bytes::le_u32(out, offset + 1) as i32;
            let next = put_u32(out, offset + 1, super::model::translated_target(target, offset) as u32);
            lemma_translate_from_keeps(next, offset + 5, limit);
        } else {
            lemma_translate_from_keeps(out, offset + 1, limit);
        }
    }
}

/// Decompressing writes nothing past the bytes it reports: when it succeeds
/// with `n` bytes, the buffer keeps its length and every byte from `n` on is
/// the byte it held before.
pub proof fn lemma_decompress_writes_only_its_output(input: Seq<u8>, out: Seq<u8>)
    requires
        out.len() <= usize::MAX,
        lzx_decompress(input, out).1 is Ok,
    ensures
        ({
            let (buf, r) = lzx_decompress(input, out);
            let n = r->Ok_0 as int;
            &&& buf.len() == out.len()
            &&& n <= out.len()
            &&& forall|i: int| n <= i < out.len() ==> #[trigger] buf[i] == out[i]
        }),
{
    let s0 = initial_state(input, out);
    let fuel = (input.len() * 8 + 1) as nat;
    lemma_blocks_write(s0, fuel);
    let s = run_blocks(s0, fuel).0;
    if s.output_offset >= 10 {
        lemma_translate_from_keeps(s.output, 0, s.output_offset - 10);
    }
}

/// A match through repeated offset `slot` (R0, R1 or R2) copies from that
/// offset and moves it to the front: the used offset becomes R0, the old R0
/// takes its place, the third offset stays, and nothing else of the decoder
/// changes. So an R0 match right after it copies from the same distance.
pub proof fn lemma_repeated_offset_moves_to_front(s: LzxModel, slot: int)
    requires
        0 <= slot < 3,
        s.repeated_offset.len() == 3,
    ensures
        ({
            let (t, r) = match_offset(s, slot);
            &&& r == Ok::<int, super::LzxDecodeError>(s.repeated_offset[slot])
            &&& t.repeated_offset.len() == 3
            &&& t.repeated_offset[0] == s.repeated_offset[slot]
            &&& t.repeated_offset[slot] == s.repeated_offset[0]
            &&& forall|j: int| 0 <= j < 3 && j != 0 && j != slot ==> t.repeated_offset[j] == s.repeated_offset[j]
            &&& t == LzxModel { repeated_offset: t.repeated_offset, ..s }
            &&& match_offset(t, 0).1 == Ok::<int, super::LzxDecodeError>(s.repeated_offset[slot])
        }),
{
    reveal(match_offset);
}

/// In an aligned-offset block, a match whose position slot has three or
/// more footer bits takes its offset from two fields: the verbatim field of
/// `footer_bits - 3` bits gives the high bits and the aligned-offset symbol
/// the low three, on top of the slot's base (less two). The offset then
/// becomes R0, with the old R0 and R1 moving down.
pub proof fn lemma_aligned_offset_combines_fields(s: LzxModel, slot: int)
    requires
        3 <= slot,
        s.block_type == LzxBlockType::AlignedOffset,
        footer_bits(slot) >= 3,
        match_offset(s, slot).1 is Ok,
    ensures
        ({
            let fb = footer_bits(slot);
            let (sa, ra) = get_bits(s, (fb - 3) as u8);
            let (sb, rb) = decode_symbol(sa, sa.alignoffset);
            let (t, r) = match_offset(s, slot);
            &&& ra is Ok
            &&& rb is Ok
            &&& r == Ok::<int, super::LzxDecodeError>(position_base(slot) + ra->Ok_0 * 8 + rb->Ok_0 - 2)
            &&& t.repeated_offset == seq![r->Ok_0, s.repeated_offset[0], s.repeated_offset[1]]
        }),
{
    reveal(match_offset);
    reveal(decode_symbol);
    let fb = footer_bits(slot);
    let (sa, ra) = get_bits(s, (fb - 3) as u8);
    assert(sa.repeated_offset == s.repeated_offset);
    let (sb, rb) = decode_symbol(sa, sa.alignoffset);
    assert(sb.repeated_offset == s.repeated_offset);
}

proof fn lemma_copy_match_copies(out: Seq<u8>, i: int, end: int, d: int)
    requires
        0 <= i,
        end <= out.len(),
        1 <= d <= i,
    ensures
        copy_match(out, i, end, d).len() == out.len(),
        forall|p: int| 0 <= p < i ==> #[trigger] copy_match(out, i, end, d)[p] == out[p],
        forall|p: int| i <= p < end ==> #[trigger] copy_match(out, i, end, d)[p] == copy_match(out, i, end, d)[p - d],
    decreases end - i,
{
    if i < end {
        let next = out.update(i, out[i - d]);
        lemma_copy_match_copies(next, i + 1, end, d);
        let r = copy_match(out, i, end, d);
        assert(r == copy_match(next, i + 1, end, d));
        assert forall|p: int| i <= p < end implies #[trigger] r[p] == r[p - d] by {
            if p == i {
                assert(r[i] == next[i]);
                assert(r[i - d] == next[i - d]);
            }
        }
    }
}

/// Each byte of `out` in `start..end` equals the byte `d` positions before it.
pub open spec fn repeats_at_distance(out: Seq<u8>, start: int, end: int, d: int) -> bool {
    forall|p: int| start <= p < end ==> #[trigger] out[p] == out[p - d]
}

/// A match token with a length header below 7 writes exactly header + 2
/// bytes (LZX's shortest match is two bytes) at the output position, each
/// equal to the byte some fixed distance before it, within what was already
/// written; no other byte of the output changes.
pub proof fn lemma_short_match_writes_header_plus_two(s: LzxModel)
    requires
        decode_token(s).1 is Ok,
        0 <= s.output_offset,
        decode_symbol(s, s.main).1 is Ok,
        decode_symbol(s, s.main).1->Ok_0 >= super::model::LZX_MAIN_LIT_CODES,
        (decode_symbol(s, s.main).1->Ok_0 - super::model::LZX_MAIN_LIT_CODES) % 8 < 7,
        forall|j: int| 0 <= j < s.repeated_offset.len() ==> #[trigger] s.repeated_offset[j] >= 0,
        s.repeated_offset.len() == 3,
    ensures
        ({
            let t = decode_token(s).0;
            let h = (decode_symbol(s, s.main).1->Ok_0 - super::model::LZX_MAIN_LIT_CODES) % 8;
            &&& t.output_offset == s.output_offset + h + 2
            &&& t.output.len() == s.output.len()
            &&& exists|d: int| 1 <= d <= s.output_offset && #[trigger] repeats_at_distance(t.output, s.output_offset, t.output_offset, d)
            &&& forall|p: int|
                0 <= p < t.output.len() && !(s.output_offset <= p < t.output_offset) ==> #[trigger] t.output[p]
                    == s.output[p]
        }),
{
    reveal(decode_token);
    lemma_decode_symbol_keeps(s, s.main);
    let (s1, r1) = decode_symbol(s, s.main);
    let main = r1->Ok_0;
    let m = main - super::model::LZX_MAIN_LIT_CODES;
    let header = m % 8;
    let slot = m / 8;
    lemma_match_offset_keeps(s1, slot);
    let (s3, r3) = match_offset(s1, slot);
    let d = r3->Ok_0;
    let end = s3.output_offset + (header + 2);
    let t = decode_token(s).0;
    reveal(decode_symbol);
    assert(s1.repeated_offset == s.repeated_offset);
    reveal(match_offset);
    if slot < super::model::LZX_REPEATED_OFFSETS {
        assert(s1.repeated_offset[slot] >= 0);
    }
    assert(r3 is Ok);
    assert(d >= 1 && d <= s3.output_offset);
    assert(t.output == copy_match(s3.output, s3.output_offset, end, d));
    assert(t.output_offset == end);
    lemma_copy_match_copies(s3.output, s3.output_offset, end, d);
    lemma_copy_match_writes(s3.output, s3.output_offset, end, d);
    assert forall|p: int|
        s.output_offset <= p < t.output_offset implies #[trigger] t.output[p] == t.output[p - d] by {
        assert(copy_match(s3.output, s3.output_offset, end, d)[p] == copy_match(s3.output, s3.output_offset, end, d)[p - d]);
    }
    assert(repeats_at_distance(t.output, s.output_offset, t.output_offset, d));
    assert forall|p: int| 0 <= p < t.output.len() && !(s.output_offset <= p < t.output_offset) implies #[trigger] t.output[p]
        == s.output[p] by {
        if p < s.output_offset {
            assert(copy_match(s3.output, s3.output_offset, end, d)[p] == s3.output[p]);
        } else {
            assert(copy_match(s3.output, s3.output_offset, end, d)[p] == s3.output[p]);
        }
    }
}

} // verus!
