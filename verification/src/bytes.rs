//! Little- and big-endian integer encodings over byte sequences.

use vstd::prelude::*;

verus! {

/// Value of the little-endian `u16` stored at `off`.
pub open spec fn le_u16(s: Seq<u8>, off: int) -> u16 {
    ((s[off] as u16) | ((s[off + 1] as u16) << 8u16)) as u16
}

/// Value of the little-endian `u32` stored at `off`.
pub open spec fn le_u32(s: Seq<u8>, off: int) -> u32 {
    (s[off] as u32) | ((s[off + 1] as u32) << 8u32) | ((s[off + 2] as u32) << 16u32) | ((s[off + 3] as u32) << 24u32)
}

/// Little-endian bytes of a `u16`.
pub open spec fn le_u16_bytes(v: u16) -> Seq<u8> {
    seq![(v & 0xff) as u8, ((v >> 8u16) & 0xff) as u8]
}

/// Little-endian bytes of a `u32`.
pub open spec fn le_u32_bytes(v: u32) -> Seq<u8> {
    seq![(v & 0xff) as u8, ((v >> 8u32) & 0xff) as u8, ((v >> 16u32) & 0xff) as u8, ((v >> 24u32) & 0xff) as u8]
}

/// Little-endian bytes of a `u64`.
pub open spec fn le_u64_bytes(v: u64) -> Seq<u8> {
    seq![
        (v & 0xff) as u8,
        ((v >> 8u64) & 0xff) as u8,
        ((v >> 16u64) & 0xff) as u8,
        ((v >> 24u64) & 0xff) as u8,
        ((v >> 32u64) & 0xff) as u8,
        ((v >> 40u64) & 0xff) as u8,
        ((v >> 48u64) & 0xff) as u8,
        ((v >> 56u64) & 0xff) as u8,
    ]
}

/// `s` with `piece` written over it from `offset` on.
pub open spec fn spliced(s: Seq<u8>, offset: int, piece: Seq<u8>) -> Seq<u8> {
    Seq::new(s.len(), |j: int| if offset <= j < offset + piece.len() { piece[j - offset] } else { s[j] })
}

/// Reading back a little-endian `u32` gives what was written there.
pub proof fn lemma_le_u32_read_after_write(s: Seq<u8>, offset: int, v: u32)
    requires
        0 <= offset,
        offset + 4 <= s.len(),
    ensures
        le_u32(spliced(s, offset, le_u32_bytes(v)), offset) == v,
{
    let t = spliced(s, offset, le_u32_bytes(v));
    assert(t[offset] == (v & 0xff) as u8);
    assert(t[offset + 1] == ((v >> 8u32) & 0xff) as u8);
    assert(t[offset + 2] == ((v >> 16u32) & 0xff) as u8);
    assert(t[offset + 3] == ((v >> 24u32) & 0xff) as u8);
    assert((((v & 0xff) as u8) as u32) | ((((v >> 8u32) & 0xff) as u8 as u32) << 8u32) | ((((v >> 16u32) & 0xff) as u8
        as u32) << 16u32) | ((((v >> 24u32) & 0xff) as u8 as u32) << 24u32) == v) by (bit_vector);
}

/// Reading back a little-endian `u64` gives what was written there.
pub proof fn lemma_le_u64_read_after_write(s: Seq<u8>, offset: int, v: u64)
    requires
        0 <= offset,
        offset + 8 <= s.len(),
    ensures
        le_u64(spliced(s, offset, le_u64_bytes(v)), offset) == v,
{
    let t = spliced(s, offset, le_u64_bytes(v));
    assert(t[offset] == (v & 0xff) as u8);
    assert(t[offset + 1] == ((v >> 8u64) & 0xff) as u8);
    assert(t[offset + 2] == ((v >> 16u64) & 0xff) as u8);
    assert(t[offset + 3] == ((v >> 24u64) & 0xff) as u8);
    assert(t[offset + 4] == ((v >> 32u64) & 0xff) as u8);
    assert(t[offset + 5] == ((v >> 40u64) & 0xff) as u8);
    assert(t[offset + 6] == ((v >> 48u64) & 0xff) as u8);
    assert(t[offset + 7] == ((v >> 56u64) & 0xff) as u8);
    assert((((v & 0xff) as u8) as u64) | ((((v >> 8u64) & 0xff) as u8 as u64) << 8u64) | ((((v >> 16u64) & 0xff) as u8
        as u64) << 16u64) | ((((v >> 24u64) & 0xff) as u8 as u64) << 24u64) | ((((v >> 32u64) & 0xff) as u8 as u64)
        << 32u64) | ((((v >> 40u64) & 0xff) as u8 as u64) << 40u64) | ((((v >> 48u64) & 0xff) as u8 as u64) << 48u64)
        | ((((v >> 56u64) & 0xff) as u8 as u64) << 56u64) == v) by (bit_vector);
}

/// A write that does not overlap a little-endian `u32` leaves it as it was.
pub proof fn lemma_le_u32_write_elsewhere(s: Seq<u8>, offset: int, piece: Seq<u8>, at: int)
    requires
        0 <= at,
        at + 4 <= s.len(),
        at + 4 <= offset || offset + piece.len() <= at,
    ensures
        le_u32(spliced(s, offset, piece), at) == le_u32(s, at),
{
    let t = spliced(s, offset, piece);
    assert(t[at] == s[at] && t[at + 1] == s[at + 1] && t[at + 2] == s[at + 2] && t[at + 3] == s[at + 3]);
}

/// A write that does not overlap a little-endian `u64` leaves it as it was.
pub proof fn lemma_le_u64_write_elsewhere(s: Seq<u8>, offset: int, piece: Seq<u8>, at: int)
    requires
        0 <= at,
        at + 8 <= s.len(),
        at + 8 <= offset || offset + piece.len() <= at,
    ensures
        le_u64(spliced(s, offset, piece), at) == le_u64(s, at),
{
    let t = spliced(s, offset, piece);
    assert(t[at] == s[at] && t[at + 1] == s[at + 1] && t[at + 2] == s[at + 2] && t[at + 3] == s[at + 3]);
    assert(t[at + 4] == s[at + 4] && t[at + 5] == s[at + 5] && t[at + 6] == s[at + 6] && t[at + 7] == s[at + 7]);
}

/// Sum of the bytes, as an unbounded integer.
pub open spec fn byte_sum(s: Seq<u8>) -> nat
    decreases s.len(),
{
    if s.len() == 0 {
        0
    } else {
        byte_sum(s.drop_last()) + s.last() as nat
    }
}

/// Changing one byte changes the sum by the difference.
pub proof fn lemma_byte_sum_update(s: Seq<u8>, i: int, v: u8)
    requires
        0 <= i < s.len(),
    ensures
        byte_sum(s.update(i, v)) == byte_sum(s) - s[i] + v,
    decreases s.len(),
{
    let t = s.update(i, v);
    if i == s.len() - 1 {
        assert(t.drop_last() =~= s.drop_last());
    } else {
        lemma_byte_sum_update(s.drop_last(), i, v);
        assert(t.drop_last() =~= s.drop_last().update(i, v));
    }
}

/// Writes `src` into `data` from `offset` on.
pub fn write_bytes(data: &mut [u8], offset: usize, src: &[u8])
    requires
        offset + src@.len() <= old(data)@.len(),
    ensures
        final(data)@ == spliced(old(data)@, offset as int, src@),
{
    let ghost d0 = data@;
    let n = data.len();
    let mut i: usize = 0;
    while i < src.len()
        invariant
            offset + src@.len() <= d0.len(),
            d0.len() == n,
            data@.len() == d0.len(),
            i <= src@.len(),
            forall|j: int| 0 <= j < d0.len() ==> #[trigger] data@[j] == if offset <= j < offset + i { src@[j - offset] } else { d0[j] },
        decreases src@.len() - i,
    {
        data[offset + i] = src[i];
        i += 1;
    }
    assert(data@ =~= spliced(d0, offset as int, src@));
}

/// Writes `value` little-endian at `offset`.
pub fn write_u16(data: &mut [u8], offset: usize, value: u16)
    requires
        offset + 2 <= old(data)@.len(),
    ensures
        final(data)@ == spliced(old(data)@, offset as int, le_u16_bytes(value)),
{
    let ghost d0 = data@;
    data[offset] = (value & 0xff) as u8;
    data[offset + 1] = ((value >> 8u16) & 0xff) as u8;
    assert(data@ =~= spliced(d0, offset as int, le_u16_bytes(value)));
}

/// Writes `value` little-endian at `offset`.
pub fn write_u32(data: &mut [u8], offset: usize, value: u32)
    requires
        offset + 4 <= old(data)@.len(),
    ensures
        final(data)@ == spliced(old(data)@, offset as int, le_u32_bytes(value)),
{
    let ghost d0 = data@;
    data[offset] = (value & 0xff) as u8;
    data[offset + 1] = ((value >> 8u32) & 0xff) as u8;
    data[offset + 2] = ((value >> 16u32) & 0xff) as u8;
    data[offset + 3] = ((value >> 24u32) & 0xff) as u8;
    assert(data@ =~= spliced(d0, offset as int, le_u32_bytes(value)));
}

/// Writes `value` little-endian at `offset`.
pub fn write_u64(data: &mut [u8], offset: usize, value: u64)
    requires
        offset + 8 <= old(data)@.len(),
    ensures
        final(data)@ == spliced(old(data)@, offset as int, le_u64_bytes(value)),
{
    let ghost d0 = data@;
    data[offset] = (value & 0xff) as u8;
    data[offset + 1] = ((value >> 8u64) & 0xff) as u8;
    data[offset + 2] = ((value >> 16u64) & 0xff) as u8;
    data[offset + 3] = ((value >> 24u64) & 0xff) as u8;
    data[offset + 4] = ((value >> 32u64) & 0xff) as u8;
    data[offset + 5] = ((value >> 40u64) & 0xff) as u8;
    data[offset + 6] = ((value >> 48u64) & 0xff) as u8;
    data[offset + 7] = ((value >> 56u64) & 0xff) as u8;
    assert(data@ =~= spliced(d0, offset as int, le_u64_bytes(value)));
}

/// Appends `value` little-endian.
pub fn push_u16(data: &mut Vec<u8>, value: u16)
    ensures
        final(data)@ == old(data)@ + le_u16_bytes(value),
{
    data.push((value & 0xff) as u8);
    data.push(((value >> 8u16) & 0xff) as u8);
    assert(data@ =~= old(data)@ + le_u16_bytes(value));
}

/// Appends `value` little-endian.
pub fn push_u32(data: &mut Vec<u8>, value: u32)
    ensures
        final(data)@ == old(data)@ + le_u32_bytes(value),
{
    data.push((value & 0xff) as u8);
    data.push(((value >> 8u32) & 0xff) as u8);
    data.push(((value >> 16u32) & 0xff) as u8);
    data.push(((value >> 24u32) & 0xff) as u8);
    assert(data@ =~= old(data)@ + le_u32_bytes(value));
}

/// Appends `value` little-endian.
pub fn push_u64(data: &mut Vec<u8>, value: u64)
    ensures
        final(data)@ == old(data)@ + le_u64_bytes(value),
{
    data.push((value & 0xff) as u8);
    data.push(((value >> 8u64) & 0xff) as u8);
    data.push(((value >> 16u64) & 0xff) as u8);
    data.push(((value >> 24u64) & 0xff) as u8);
    data.push(((value >> 32u64) & 0xff) as u8);
    data.push(((value >> 40u64) & 0xff) as u8);
    data.push(((value >> 48u64) & 0xff) as u8);
    data.push(((value >> 56u64) & 0xff) as u8);
    assert(data@ =~= old(data)@ + le_u64_bytes(value));
}

/// Value of the little-endian `u64` stored at `off`.
pub open spec fn le_u64(s: Seq<u8>, off: int) -> u64 {
    (s[off] as u64) | ((s[off + 1] as u64) << 8u64) | ((s[off + 2] as u64) << 16u64) | ((s[off + 3] as u64) << 24u64)
        | ((s[off + 4] as u64) << 32u64) | ((s[off + 5] as u64) << 40u64) | ((s[off + 6] as u64) << 48u64)
        | ((s[off + 7] as u64) << 56u64)
}

/// Reads a little-endian `u64` at `offset`; `None` when it does not fit.
pub fn read_le_u64(data: &[u8], offset: usize) -> (r: Option<u64>)
    ensures
        r is Some <==> offset + 8 <= data@.len(),
        r matches Some(v) ==> v == le_u64(data@, offset as int),
{
    if offset > data.len() || data.len() - offset < 8 {
        return None;
    }
    Some((data[offset] as u64) | ((data[offset + 1] as u64) << 8u64) | ((data[offset + 2] as u64) << 16u64)
        | ((data[offset + 3] as u64) << 24u64) | ((data[offset + 4] as u64) << 32u64) | ((data[offset + 5] as u64) << 40u64)
        | ((data[offset + 6] as u64) << 48u64) | ((data[offset + 7] as u64) << 56u64))
}

/// Reads a little-endian `u32` at `offset`; `None` when it does not fit.
pub fn read_le_u32(data: &[u8], offset: usize) -> (r: Option<u32>)
    ensures
        r is Some <==> offset + 4 <= data@.len(),
        r matches Some(v) ==> v == le_u32(data@, offset as int),
{
    if offset > data.len() || data.len() - offset < 4 {
        return None;
    }
    Some((data[offset] as u32) | ((data[offset + 1] as u32) << 8u32) | ((data[offset + 2] as u32) << 16u32) | ((data[offset + 3] as u32) << 24u32))
}

/// `v` is a power of two.
pub open spec fn is_pow2(v: int) -> bool
    decreases v,
{
    if v <= 0 {
        false
    } else if v == 1 {
        true
    } else {
        v % 2 == 0 && is_pow2(v / 2)
    }
}

/// Whether `v` is a power of two.
pub fn is_power_of_two(v: u64) -> (r: bool)
    ensures
        r == is_pow2(v as int),
{
    if v == 0 {
        return false;
    }
    let mut x = v;
    while x % 2 == 0
        invariant
            x > 0,
            is_pow2(x as int) == is_pow2(v as int),
        decreases x,
    {
        x = x / 2;
    }
    x == 1
}

/// A vector of `n` zero bytes.
pub fn zeroed_vec(n: usize) -> (r: Vec<u8>)
    ensures
        r@ == Seq::new(n as nat, |i: int| 0u8),
{
    let mut v: Vec<u8> = Vec::new();
    let mut i: usize = 0;
    while i < n
        invariant
            i <= n,
            v@ == Seq::new(i as nat, |j: int| 0u8),
        decreases n - i,
    {
        v.push(0);
        i += 1;
    }
    v
}

/// Copy of `v[start..end]`.
pub fn vec_subrange(v: &Vec<u8>, start: usize, end: usize) -> (r: Vec<u8>)
    requires
        start <= end <= v@.len(),
    ensures
        r@ == v@.subrange(start as int, end as int),
{
    let mut out: Vec<u8> = Vec::new();
    let mut i = start;
    while i < end
        invariant
            start <= i <= end <= v@.len(),
            out@ == v@.subrange(start as int, i as int),
        decreases end - i,
    {
        out.push(v[i]);
        i += 1;
    }
    out
}

/// Overwrites `dst[start..start + src.len()]` with `src`.
pub fn vec_overwrite(dst: &mut Vec<u8>, start: usize, src: &Vec<u8>)
    requires
        start + src@.len() <= old(dst)@.len(),
    ensures
        final(dst)@ == old(dst)@.subrange(0, start as int) + src@ + old(dst)@.subrange(start + src@.len(), old(dst)@.len() as int),
{
    let ghost d0 = dst@;
    let mut i: usize = 0;
    while i < src.len()
        invariant
            start + src@.len() <= d0.len(),
            dst.len() == d0.len(),
            i <= src@.len(),
            forall|j: int| 0 <= j < d0.len() ==> dst@[j] == if start <= j < start + i { src@[j - start] } else { d0[j] },
        decreases src@.len() - i,
    {
        dst.set(start + i, src[i]);
        i += 1;
    }
    assert(dst@ =~= d0.subrange(0, start as int) + src@ + d0.subrange(start + src@.len(), d0.len() as int));
}

} // verus!
