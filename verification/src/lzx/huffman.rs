//! Canonical Huffman tables for the LZX alphabets.
//!
//! A code is given by one length per symbol.  Codes of the same length are
//! consecutive and ordered by symbol number; shorter codes come first.  The
//! table below is the usual "count / first code / first symbol" layout, and
//! `decode` is proved to agree with the canonical code defined over the
//! lengths alone.

use super::LzxDecodeError;
use vstd::arithmetic::power2::{lemma2_to64, lemma_pow2_adds, pow2};
use vstd::bits::{lemma_u32_shl_is_mul, lemma_u32_shr_is_div};
use vstd::prelude::*;

verus! {

/// Longest code length in an LZX alphabet.
pub const HUFFMAN_BITS: usize = 16;

/// Number of symbols among the first `n` whose code length is `l`.
pub open spec fn count_below(lengths: Seq<u8>, n: int, l: int) -> nat
    decreases n,
{
    if n <= 0 {
        0
    } else {
        count_below(lengths, n - 1, l) + if lengths[n - 1] == l { 1nat } else { 0nat }
    }
}

/// Number of symbols whose code length is `l`.
pub open spec fn count_len(lengths: Seq<u8>, l: int) -> nat {
    count_below(lengths, lengths.len() as int, l)
}

/// True when no symbol has a code.
pub open spec fn no_codes(lengths: Seq<u8>) -> bool {
    forall|i: int| 0 <= i < lengths.len() ==> lengths[i] == 0
}

/// Codes of length `l` in use.  An alphabet without codes decodes as two
/// one-bit codes, both for symbol 0.
pub open spec fn eff_count(lengths: Seq<u8>, l: int) -> nat {
    if no_codes(lengths) {
        if l == 1 { 2 } else { 0 }
    } else {
        count_len(lengths, l)
    }
}

/// The first code value of length `l` (as an `l`-bit number).
pub open spec fn code_base(lengths: Seq<u8>, l: int) -> int
    decreases l,
{
    if l <= 1 {
        0
    } else {
        (code_base(lengths, l - 1) + eff_count(lengths, l - 1)) * 2
    }
}

/// Position, in the length-then-symbol order, of the first symbol of length `l`.
pub open spec fn first_index(lengths: Seq<u8>, l: int) -> int
    decreases l,
{
    if l <= 1 {
        0
    } else {
        first_index(lengths, l - 1) + eff_count(lengths, l - 1)
    }
}

/// Every length is at most 16 bits.
pub open spec fn lengths_valid(lengths: Seq<u8>) -> bool {
    forall|i: int| 0 <= i < lengths.len() ==> lengths[i] <= 16
}

/// The lengths describe a complete prefix code over the alphabet.
pub open spec fn code_complete(lengths: Seq<u8>) -> bool {
    &&& forall|l: int| 1 <= l <= 16 ==> code_base(lengths, l) + eff_count(lengths, l) <= pow2(l as nat)
    &&& first_index(lengths, 17) <= lengths.len()
    &&& code_base(lengths, 17) == pow2(17)
}

/// Outcome of building a decoding table from `lengths`.
pub open spec fn build_result(lengths: Seq<u8>) -> Result<(), LzxDecodeError> {
    if !lengths_valid(lengths) {
        Err(LzxDecodeError::InvalidHuffmanLength)
    } else if !code_complete(lengths) {
        Err(LzxDecodeError::IncompleteHuffmanAlphabet)
    } else {
        Ok(())
    }
}

/// The first symbol at or after `from` whose code length is `l` and which
/// has `k` symbols of that length before it.
pub open spec fn find_symbol(lengths: Seq<u8>, l: int, k: int, from: int) -> int
    decreases lengths.len() - from,
{
    if from < 0 || from >= lengths.len() {
        0
    } else if lengths[from] == l && count_below(lengths, from, l) == k {
        from
    } else {
        find_symbol(lengths, l, k, from + 1)
    }
}

/// The `k`-th symbol (by symbol number) whose code length is `l`.
pub open spec fn symbol_at(lengths: Seq<u8>, l: int, k: int) -> u16 {
    if no_codes(lengths) {
        0
    } else {
        find_symbol(lengths, l, k, 0) as u16
    }
}

/// Canonical decoding of a 16-bit window, trying code lengths from `bits` up.
pub open spec fn decode_from(lengths: Seq<u8>, huf: u32, bits: int) -> Result<(u16, u8), LzxDecodeError>
    decreases 17 - bits,
{
    if bits > 16 || bits < 1 {
        Err(LzxDecodeError::InvalidHuffmanCode)
    } else if eff_count(lengths, bits) == 0 {
        decode_from(lengths, huf, bits + 1)
    } else {
        let unit = pow2((16 - bits) as nat) as int;
        let start = code_base(lengths, bits) * unit;
        let end = start + eff_count(lengths, bits) * unit;
        if start <= huf && huf < end {
            Ok((symbol_at(lengths, bits, (huf - start) / unit), bits as u8))
        } else {
            decode_from(lengths, huf, bits + 1)
        }
    }
}

/// Decoding with a table built from `code` (`None`: a table never built,
/// which matches nothing).
pub open spec fn table_decode(code: Option<Seq<u8>>, huf: u32) -> Result<(u16, u8), LzxDecodeError> {
    match code {
        None => Err(LzxDecodeError::InvalidHuffmanCode),
        Some(lengths) => decode_from(lengths, huf, 1),
    }
}

proof fn lemma_count_below_bound(lengths: Seq<u8>, n: int, l: int)
    requires
        0 <= n,
    ensures
        count_below(lengths, n, l) <= n,
    decreases n,
{
    if n > 0 {
        lemma_count_below_bound(lengths, n - 1, l);
    }
}

proof fn lemma_code_base_nonneg(lengths: Seq<u8>, l: int)
    ensures
        code_base(lengths, l) >= 0,
    decreases l,
{
    if l > 1 {
        lemma_code_base_nonneg(lengths, l - 1);
    }
}

/// The codes of length `l` occupy a range of the 16-bit window.
proof fn lemma_code_range(lengths: Seq<u8>, l: int)
    requires
        code_complete(lengths),
        1 <= l <= 16,
    ensures
        pow2((16 - l) as nat) > 0,
        code_base(lengths, l) >= 0,
        code_base(lengths, l) * pow2((16 - l) as nat) + eff_count(lengths, l) * pow2((16 - l) as nat) <= 65536,
{
    let p = pow2((16 - l) as nat) as int;
    let cb = code_base(lengths, l);
    let e = eff_count(lengths, l) as int;
    lemma2_to64();
    lemma_code_base_nonneg(lengths, l);
    vstd::arithmetic::power2::lemma_pow2_pos((16 - l) as nat);
    lemma_pow2_adds(l as nat, (16 - l) as nat);
    vstd::arithmetic::mul::lemma_mul_inequality(cb + e, pow2(l as nat) as int, p);
    vstd::arithmetic::mul::lemma_mul_is_distributive_add_other_way(p, cb, e);
}

proof fn lemma_count_zero(lengths: Seq<u8>, n: int, l: int)
    requires
        0 <= n <= lengths.len(),
        no_codes(lengths),
        l != 0,
    ensures
        count_below(lengths, n, l) == 0,
    decreases n,
{
    if n > 0 {
        lemma_count_zero(lengths, n - 1, l);
    }
}

proof fn lemma_count_below_mono(lengths: Seq<u8>, a: int, b: int, l: int)
    requires
        0 <= a <= b,
    ensures
        count_below(lengths, a, l) <= count_below(lengths, b, l),
    decreases b - a,
{
    if a < b {
        lemma_count_below_mono(lengths, a, b - 1, l);
    }
}

proof fn lemma_rank_strict(lengths: Seq<u8>, s: int, t: int, l: int)
    requires
        0 <= s < t <= lengths.len(),
        lengths[s] == l,
    ensures
        count_below(lengths, s, l) < count_below(lengths, t, l),
{
    lemma_count_below_mono(lengths, s + 1, t, l);
}

proof fn lemma_rank_exists(lengths: Seq<u8>, n: int, l: int, k: int)
    requires
        0 <= n <= lengths.len(),
        0 <= k < count_below(lengths, n, l),
    ensures
        exists|s: int| 0 <= s < n && lengths[s] == l && count_below(lengths, s, l) == k,
    decreases n,
{
    if k < count_below(lengths, n - 1, l) {
        lemma_rank_exists(lengths, n - 1, l, k);
        let s = choose|s: int| 0 <= s < n - 1 && lengths[s] == l && count_below(lengths, s, l) == k;
        assert(0 <= s < n && lengths[s] == l && count_below(lengths, s, l) == k);
    } else {
        assert(lengths[n - 1] == l && count_below(lengths, n - 1, l) == k);
    }
}

proof fn lemma_first_index_mono(lengths: Seq<u8>, a: int, b: int)
    requires
        1 <= a <= b,
    ensures
        first_index(lengths, a) <= first_index(lengths, b),
    decreases b - a,
{
    if a < b {
        lemma_first_index_mono(lengths, a, b - 1);
    }
}

proof fn lemma_first_index_nonneg(lengths: Seq<u8>, a: int)
    ensures
        first_index(lengths, a) >= 0,
    decreases a,
{
    if a > 1 {
        lemma_first_index_nonneg(lengths, a - 1);
    }
}

proof fn lemma_find_symbol(lengths: Seq<u8>, s: int, l: int, from: int)
    requires
        0 <= from <= s < lengths.len(),
        lengths[s] == l,
    ensures
        find_symbol(lengths, l, count_below(lengths, s, l) as int, from) == s,
    decreases s - from,
{
    if from < s {
        if lengths[from] == l {
            lemma_rank_strict(lengths, from, s, l);
        }
        lemma_find_symbol(lengths, s, l, from + 1);
    }
}

/// A symbol of length `l` and rank `k` is the one `symbol_at` names.
proof fn lemma_symbol_at(lengths: Seq<u8>, s: int, l: int)
    requires
        0 <= s < lengths.len(),
        lengths[s] == l,
        l != 0,
    ensures
        symbol_at(lengths, l, count_below(lengths, s, l) as int) == s as u16,
{
    assert(!no_codes(lengths));
    lemma_find_symbol(lengths, s, l, 0);
}

/// The codes of every length below `l` end, in the 16-bit window, no later
/// than the first code of length `l` starts.
proof fn lemma_codes_below_end_before(lengths: Seq<u8>, b: int, l: int)
    requires
        1 <= b < l <= 16,
    ensures
        (code_base(lengths, b) + eff_count(lengths, b)) * pow2((16 - b) as nat) <= code_base(lengths, l) * pow2(
            (16 - l) as nat,
        ),
    decreases l - b,
{
    let p = pow2((16 - l) as nat) as int;
    lemma_pow2_adds(1, (16 - l) as nat);
    vstd::arithmetic::power2::lemma2_to64();
    assert(pow2(((16 - l) + 1) as nat) == 2 * p);
    assert(((16 - l) + 1) as nat == (16 - (l - 1)) as nat);
    let q = code_base(lengths, l - 1) + eff_count(lengths, l - 1);
    assert(code_base(lengths, l) == q * 2);
    assert(code_base(lengths, l) * p == q * (2 * p)) by (nonlinear_arith)
        requires
            code_base(lengths, l) == q * 2,
    ;
    if b < l - 1 {
        lemma_codes_below_end_before(lengths, b, l - 1);
        lemma_code_base_nonneg(lengths, l - 1);
        vstd::arithmetic::power2::lemma_pow2_pos((16 - (l - 1)) as nat);
        let p1 = pow2((16 - (l - 1)) as nat) as int;
        assert(code_base(lengths, l - 1) * p1 <= q * p1) by (nonlinear_arith)
            requires
                code_base(lengths, l - 1) <= q,
                p1 > 0,
        ;
    }
}

/// Decoding skips every length below that of the code being read.
proof fn lemma_decode_skips_shorter(lengths: Seq<u8>, huf: u32, b: int, l: int)
    requires
        code_complete(lengths),
        1 <= b <= l <= 16,
        code_base(lengths, l) * pow2((16 - l) as nat) <= huf,
    ensures
        decode_from(lengths, huf, b) == decode_from(lengths, huf, l),
    decreases l - b,
{
    if b < l {
        lemma_codes_below_end_before(lengths, b, l);
        lemma_code_range(lengths, b);
        let unit = pow2((16 - b) as nat) as int;
        let start = code_base(lengths, b) * unit;
        let end = start + eff_count(lengths, b) * unit;
        let cb = code_base(lengths, b);
        let e = eff_count(lengths, b) as int;
        assert(cb * unit + e * unit == (cb + e) * unit) by (nonlinear_arith);
        lemma_decode_skips_shorter(lengths, huf, b + 1, l);
    }
}

/// The canonical code of a symbol, read at the top of the 16-bit window
/// whatever bits follow it, decodes to that symbol and its code length:
/// symbol `s` of length `l` has code `code_base(l)` plus the number of
/// symbols of length `l` before it.
pub proof fn lemma_canonical_code_decodes(lengths: Seq<u8>, s: int, rest: int)
    requires
        build_result(lengths) is Ok,
        0 <= s < lengths.len(),
        lengths[s] != 0,
        0 <= rest < pow2((16 - lengths[s]) as nat),
    ensures
        ({
            let l = lengths[s] as int;
            let code = code_base(lengths, l) + count_below(lengths, s, l);
            let huf = code * pow2((16 - l) as nat) + rest;
            &&& 0 <= huf < 65536
            &&& decode_from(lengths, huf as u32, 1) == Ok::<(u16, u8), LzxDecodeError>((s as u16, l as u8))
        }),
{
    let l = lengths[s] as int;
    assert(lengths_valid(lengths));
    assert(1 <= l <= 16);
    let unit = pow2((16 - l) as nat) as int;
    let k = count_below(lengths, s, l) as int;
    let cb = code_base(lengths, l);
    let code = cb + k;
    let huf = code * unit + rest;
    lemma_code_range(lengths, l);
    lemma_rank_strict(lengths, s, lengths.len() as int, l);
    assert(!no_codes(lengths));
    assert(eff_count(lengths, l) == count_len(lengths, l));
    let e = eff_count(lengths, l) as int;
    assert(k < e);
    assert(cb * unit <= huf && huf < cb * unit + e * unit && huf - cb * unit == k * unit + rest) by (nonlinear_arith)
        requires
            0 <= k < e,
            0 <= rest < unit,
            huf == (cb + k) * unit + rest,
    ;
    assert((k * unit + rest) / unit == k) by (nonlinear_arith)
        requires
            0 <= rest < unit,
            0 <= k,
    ;
    lemma_decode_skips_shorter(lengths, huf as u32, 1, l);
    lemma_symbol_at(lengths, s, l);
}

/// Facts about the start of the codes of length `bits` while building a table.
proof fn lemma_build_step(huf: u32, bits: int)
    requires
        1 <= bits <= 16,
        huf <= pow2(bits as nat),
    ensures
        huf * pow2((16 - bits) as nat) <= 65536,
        (huf << ((16 - bits) as u32)) == huf * pow2((16 - bits) as nat),
        (1u64 << (bits as u64)) == pow2(bits as nat),
        pow2((bits + 1) as nat) == 2 * pow2(bits as nat),
        pow2(bits as nat) <= 65536,
{
    lemma2_to64();
    lemma_pow2_adds(bits as nat, (16 - bits) as nat);
    vstd::arithmetic::mul::lemma_mul_inequality(huf as int, pow2(bits as nat) as int, pow2((16 - bits) as nat) as int);
    lemma_u32_shl_is_mul(huf, (16 - bits) as u32);
    vstd::bits::lemma_u64_shl_is_mul(1, bits as u64);
    lemma_pow2_adds(bits as nat, 1);
    if bits < 16 {
        vstd::arithmetic::power2::lemma_pow2_strictly_increases(bits as nat, 16);
    }
}

/// Facts that keep a table lookup for length `l` in range.
proof fn lemma_decode_step(lengths: Seq<u8>, l: int, count: u32)
    requires
        code_complete(lengths),
        1 <= l <= 16,
        count == eff_count(lengths, l),
    ensures
        pow2((16 - l) as nat) > 0,
        code_base(lengths, l) >= 0,
        code_base(lengths, l) * pow2((16 - l) as nat) + count * pow2((16 - l) as nat) <= 65536,
        (count << ((16 - l) as u32)) == count * pow2((16 - l) as nat),
{
    let p = pow2((16 - l) as nat) as int;
    lemma_code_range(lengths, l);
    assert(count * p <= 65536) by (nonlinear_arith)
        requires
            count * p <= code_base(lengths, l) * p + count * p,
            code_base(lengths, l) * p + count * p <= 65536,
            code_base(lengths, l) >= 0,
            p > 0;
    lemma2_to64();
    lemma_u32_shl_is_mul(count, (16 - l) as u32);
}

/// Distinct symbols with codes occupy distinct table slots, all below the
/// number of symbols.
proof fn lemma_slot_distinct(lens: Seq<u8>, t: int, s: int)
    requires
        !no_codes(lens),
        first_index(lens, 17) <= lens.len(),
        0 <= t < s < lens.len(),
        lens[t] != 0,
        lens[s] != 0,
        lens[s] <= 16,
    ensures
        first_index(lens, lens[t] as int) + count_below(lens, t, lens[t] as int)
            != first_index(lens, lens[s] as int) + count_below(lens, s, lens[s] as int),
{
    let lt = lens[t] as int;
    let l = lens[s] as int;
    let n = lens.len() as int;
    if lt == l {
        lemma_rank_strict(lens, t, s, l);
    } else if lt < l {
        lemma_count_below_mono(lens, t + 1, n, lt);
        lemma_first_index_mono(lens, lt + 1, l);
        lemma_count_below_mono(lens, 0, s, l);
    } else {
        lemma_count_below_mono(lens, s + 1, n, l);
        lemma_first_index_mono(lens, l + 1, lt);
        lemma_count_below_mono(lens, 0, t, lt);
    }
}

proof fn lemma_slot_bound(lens: Seq<u8>, s: int)
    requires
        !no_codes(lens),
        first_index(lens, 17) <= lens.len(),
        0 <= s < lens.len(),
        1 <= lens[s] <= 16,
    ensures
        0 <= first_index(lens, lens[s] as int) + count_below(lens, s, lens[s] as int) < lens.len(),
{
    let l = lens[s] as int;
    lemma_count_below_mono(lens, s + 1, lens.len() as int, l);
    lemma_first_index_mono(lens, l + 1, 17);
    lemma_first_index_nonneg(lens, l);
}

/// A table whose slots hold each symbol at its canonical position answers a
/// lookup of the `k`-th code of length `l` with `symbol_at`.
proof fn lemma_lookup(lens: Seq<u8>, symbols: Seq<u16>, l: int, k: int)
    requires
        lengths_valid(lens),
        code_complete(lens),
        symbols.len() == lens.len(),
        1 <= l <= 16,
        0 <= k < eff_count(lens, l),
        forall|s: int| 0 <= s < lens.len() && lens[s] != 0 ==>
            symbols[first_index(lens, lens[s] as int) + count_below(lens, s, lens[s] as int)] == s as u16,
        no_codes(lens) ==> symbols[0] == 0 && symbols[1] == 0,
    ensures
        0 <= first_index(lens, l) + k < lens.len(),
        symbols[first_index(lens, l) + k] == symbol_at(lens, l, k),
{
    lemma_first_index_mono(lens, l + 1, 17);
    lemma_first_index_nonneg(lens, l);
    if !no_codes(lens) {
        lemma_rank_exists(lens, lens.len() as int, l, k);
        let s = choose|s: int| 0 <= s < lens.len() && lens[s] == l && count_below(lens, s, l) == k;
        lemma_symbol_at(lens, s, l);
    }
}

/// Places every symbol that has a code at its canonical table slot.
fn fill_slots(lengths: &Vec<u8>, first_symbol: &Vec<usize>, symbols: Vec<u16>) -> (r: Vec<u16>)
    requires
        2 <= lengths@.len() <= 496,
        lengths_valid(lengths@),
        first_index(lengths@, 17) <= lengths@.len(),
        !no_codes(lengths@),
        symbols.len() == lengths@.len(),
        first_symbol.len() == 17,
        forall|l: int| 1 <= l <= 16 ==> first_symbol[l] == first_index(lengths@, l),
    ensures
        r.len() == lengths@.len(),
        forall|t: int| #![trigger lengths@[t]] 0 <= t < lengths@.len() && lengths@[t] != 0 ==>
            r[first_index(lengths@, lengths@[t] as int) + count_below(lengths@, t, lengths@[t] as int)] == t as u16,
{
    let ghost lens = lengths@;
    let n = lengths.len();
    let mut symbols = symbols;
    let mut cursor: Vec<usize> = first_symbol.clone();
    let mut s: usize = 0;
    while s < n
        invariant
            n == lens.len(),
            lens == lengths@,
            lengths_valid(lens),
            first_index(lens, 17) <= lens.len(),
            !no_codes(lens),
            s <= n,
            symbols.len() == n,
            cursor.len() == 17,
            forall|l: int| 1 <= l <= 16 ==> cursor[l] == first_index(lens, l) + count_below(lens, s as int, l),
            forall|t: int| #![trigger lens[t]] 0 <= t < s && lens[t] != 0 ==>
                symbols[first_index(lens, lens[t] as int) + count_below(lens, t, lens[t] as int)] == t as u16,
        decreases n - s,
    {
        let len = lengths[s] as usize;
        let ghost old_cursor = cursor@;
        if len != 0 {
            let pos = cursor[len];
            proof {
                lemma_slot_bound(lens, s as int);
                assert(lens[s as int] as int == len as int);
                assert(pos == first_index(lens, lens[s as int] as int) + count_below(lens, s as int, lens[s as int] as int));
            }
            let ghost old_symbols = symbols@;
            symbols.set(pos, s as u16);
            cursor.set(len, pos + 1);
            proof {
                assert forall|t: int| #![trigger lens[t]] 0 <= t <= s && lens[t] != 0 implies
                    symbols[first_index(lens, lens[t] as int) + count_below(lens, t, lens[t] as int)] == t as u16 by {
                    assert(symbols@ == old_symbols.update(pos as int, s as u16));
                    if t < s {
                        lemma_slot_distinct(lens, t, s as int);
                        lemma_slot_bound(lens, t);
                        assert(first_index(lens, lens[t] as int) + count_below(lens, t, lens[t] as int) != pos);
                        let pt = first_index(lens, lens[t] as int) + count_below(lens, t, lens[t] as int);
                        assert(old_symbols[pt] == t as u16);
                        assert(old_symbols.update(pos as int, s as u16)[pt] == old_symbols[pt]);
                    } else {
                        assert(t == s);
                        assert(symbols@[pos as int] == s as u16);
                    }
                }
            }
        }
        proof {
            assert forall|l2: int| 1 <= l2 <= 16 implies cursor[l2] == first_index(lens, l2) + count_below(lens, s + 1, l2) by {
                assert(old_cursor[l2] == first_index(lens, l2) + count_below(lens, s as int, l2));
            }
        }
        s += 1;
    }
    symbols
}

/// Decoding table for one alphabet.
pub struct LzxHuffman {
    counts: Vec<u16>,
    starts: Vec<u32>,
    first_symbol: Vec<usize>,
    symbols: Vec<u16>,
    code: Ghost<Option<Seq<u8>>>,
}

impl LzxHuffman {
    /// The code lengths the table was built from, `None` for a table never built.
    pub closed spec fn code(&self) -> Option<Seq<u8>> {
        self.code@
    }

    /// The table arrays agree with the code they were built from.
    pub closed spec fn wf(&self) -> bool {
        &&& self.counts.len() == 17
        &&& self.starts.len() == 17
        &&& self.first_symbol.len() == 17
        &&& match self.code@ {
            None => forall|l: int| 0 <= l < 17 ==> self.counts[l] == 0,
            Some(lens) => {
                &&& lengths_valid(lens)
                &&& code_complete(lens)
                &&& 2 <= lens.len() <= 496
                &&& self.symbols.len() == lens.len()
                &&& forall|l: int| 1 <= l <= 16 ==> {
                    &&& self.counts[l] == eff_count(lens, l)
                    &&& self.starts[l] == code_base(lens, l) * pow2((16 - l) as nat)
                    &&& self.first_symbol[l] == first_index(lens, l)
                }
                &&& forall|s: int| 0 <= s < lens.len() && lens[s] != 0 ==>
                    self.symbols[first_index(lens, lens[s] as int) + count_below(lens, s, lens[s] as int)] == s as u16
                &&& no_codes(lens) ==> self.symbols[0] == 0 && self.symbols[1] == 0
            },
        }
    }

    /// A table that matches no code.
    pub fn empty() -> (r: Self)
        ensures
            r.wf(),
            r.code() is None,
    {
        let mut counts: Vec<u16> = Vec::new();
        let mut starts: Vec<u32> = Vec::new();
        let mut first_symbol: Vec<usize> = Vec::new();
        let mut i: usize = 0;
        while i < 17
            invariant
                i <= 17,
                counts.len() == i,
                starts.len() == i,
                first_symbol.len() == i,
                forall|l: int| 0 <= l < i ==> counts[l] == 0,
            decreases 17 - i,
        {
            counts.push(0);
            starts.push(0);
            first_symbol.push(0);
            i += 1;
        }
        LzxHuffman { counts, starts, first_symbol, symbols: Vec::new(), code: Ghost(None) }
    }

    /// Builds the decoding table for `lengths`.
    #[verifier::rlimit(60)]
    pub fn from_lengths(lengths: &Vec<u8>) -> (r: Result<Self, LzxDecodeError>)
        requires
            2 <= lengths@.len() <= 496,
        ensures
            match r {
                Ok(t) => build_result(lengths@) is Ok && t.wf() && t.code() == Some(lengths@),
                Err(e) => build_result(lengths@) == Err::<(), LzxDecodeError>(e),
            },
    {
        let ghost lens = lengths@;
        let n = lengths.len();
        let mut out = Self::empty();
        let mut empty = true;
        let mut i: usize = 0;
        while i < n
            invariant
                n == lens.len(),
                lens == lengths@,
                2 <= n <= 496,
                i <= n,
                out.counts.len() == 17,
                out.starts.len() == 17,
                out.first_symbol.len() == 17,
                forall|l: int| 1 <= l <= 16 ==> out.counts[l] == count_below(lens, i as int, l),
                empty == (forall|j: int| 0 <= j < i ==> lens[j] == 0),
                forall|j: int| 0 <= j < i ==> lens[j] <= 16,
            decreases n - i,
        {
            let len = lengths[i] as usize;
            if len > HUFFMAN_BITS {
                return Err(LzxDecodeError::InvalidHuffmanLength);
            }
            proof {
                lemma_count_below_bound(lens, i as int, len as int);
            }
            let ghost old_counts = out.counts@;
            if len != 0 {
                let c = out.counts[len];
                out.counts.set(len, c + 1);
                empty = false;
            }
            proof {
                assert forall|l: int| 1 <= l <= 16 implies out.counts[l] == count_below(lens, i + 1, l) by {
                    assert(old_counts[l] == count_below(lens, i as int, l));
                }
            }
            i += 1;
        }
        proof {
            assert(lengths_valid(lens));
            assert(empty == no_codes(lens));
        }
        if empty {
            out.counts.set(1, 2);
        }
        assert forall|l: int| 1 <= l <= 16 implies out.counts[l] == eff_count(lens, l) by {
            if empty {
                lemma_count_zero(lens, n as int, l);
            }
        }

        let mut huf: u32 = 0;
        let mut cumulative: usize = 0;
        let mut bits: usize = 1;
        proof {
            lemma2_to64();
        }
        while bits <= HUFFMAN_BITS
            invariant
                n == lens.len(),
                lens == lengths@,
                2 <= n <= 496,
                lengths_valid(lens),
                1 <= bits <= 17,
                out.counts.len() == 17,
                out.starts.len() == 17,
                out.first_symbol.len() == 17,
                forall|l: int| 1 <= l <= 16 ==> out.counts[l] == eff_count(lens, l),
                empty == no_codes(lens),
                huf == code_base(lens, bits as int),
                huf <= pow2(bits as nat),
                cumulative == first_index(lens, bits as int),
                cumulative <= n,
                forall|l: int| 1 <= l < bits ==> code_base(lens, l) + eff_count(lens, l) <= pow2(l as nat),
                forall|l: int| 1 <= l < bits ==> out.starts[l] == code_base(lens, l) * pow2((16 - l) as nat),
                forall|l: int| 1 <= l < bits ==> out.first_symbol[l] == first_index(lens, l),
            decreases 17 - bits,
        {
            let shift = (HUFFMAN_BITS - bits) as u32;
            proof {
                lemma_build_step(huf, bits as int);
            }
            out.starts.set(bits, huf << shift);
            out.first_symbol.set(bits, cumulative);
            let count = out.counts[bits] as u32;
            proof {
                lemma_count_below_bound(lens, n as int, bits as int);
            }
            huf = huf + count;
            if huf as u64 > (1u64 << bits as u64) {
                return Err(LzxDecodeError::IncompleteHuffmanAlphabet);
            }
            huf = huf * 2;
            cumulative = cumulative + count as usize;
            if cumulative > n {
                proof {
                    lemma_first_index_mono(lens, bits + 1, 17);
                }
                return Err(LzxDecodeError::IncompleteHuffmanAlphabet);
            }
            bits += 1;
        }
        if huf as u64 != (1u64 << 17u64) {
            proof {
                vstd::bits::lemma_u64_shl_is_mul(1, 17);
            }
            return Err(LzxDecodeError::IncompleteHuffmanAlphabet);
        }
        proof {
            vstd::bits::lemma_u64_shl_is_mul(1, 17);
            assert(code_complete(lens));
        }

        let mut symbols: Vec<u16> = Vec::new();
        let mut k: usize = 0;
        while k < n
            invariant
                k <= n,
                symbols.len() == k,
                forall|j: int| 0 <= j < k ==> symbols[j] == 0,
            decreases n - k,
        {
            symbols.push(0);
            k += 1;
        }

        if !empty {
            symbols = fill_slots(lengths, &out.first_symbol, symbols);
        }
        out.symbols = symbols;
        out.code = Ghost(Some(lens));
        Ok(out)
    }

    /// Decodes the symbol whose code prefixes the 16-bit window `huf`,
    /// returning it with its code length.
    pub fn decode(&self, huf: u32) -> (r: Result<(u16, u8), LzxDecodeError>)
        requires
            self.wf(),
        ensures
            r == table_decode(self.code(), huf),
            r matches Ok((_, len)) ==> 1 <= len <= 16,
    {
        let mut bits: usize = 1;
        while bits <= HUFFMAN_BITS
            invariant
                self.wf(),
                1 <= bits <= 17,
                match self.code() {
                    None => true,
                    Some(lens) => table_decode(self.code(), huf) == decode_from(lens, huf, bits as int),
                },
            decreases 17 - bits,
        {
            let count = self.counts[bits] as u32;
            if count != 0 {
                let ghost lens = self.code->0;
                let shift = (HUFFMAN_BITS - bits) as u32;
                let start = self.starts[bits];
                proof {
                    lemma_decode_step(lens, bits as int, count);
                }
                let end = start + (count << shift);
                if huf >= start && huf < end {
                    let delta = huf - start;
                    proof {
                        lemma_u32_shr_is_div(delta, shift);
                        assert((delta as int) / (pow2(shift as nat) as int) < count as int) by (nonlinear_arith)
                            requires (delta as int) < (count as int) * (pow2(shift as nat) as int), pow2(shift as nat) > 0;
                    }
                    let k = (delta >> shift) as usize;
                    proof {
                        lemma_lookup(lens, self.symbols@, bits as int, k as int);
                    }
                    let index = self.first_symbol[bits] + k;
                    return Ok((self.symbols[index], bits as u8));
                }
            }
            bits += 1;
        }
        Err(LzxDecodeError::InvalidHuffmanCode)
    }
}

} // verus!
