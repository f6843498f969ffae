//! Character-level string helpers shared by the path and configuration code.

use vstd::prelude::*;
use vstd::utf8::{
    codepoint_width_1, codepoint_width_2, codepoint_width_3, codepoint_width_4, decode_first_scalar, is_scalar,
    length_of_first_scalar, pop_first_scalar, valid_first_scalar, valid_utf8,
};

verus! {

/// ASCII lowercase of one character; other characters are kept.
pub open spec fn ascii_lower(c: char) -> char {
    if 'A' <= c && c <= 'Z' {
        ((c as u32) + 32) as char
    } else {
        c
    }
}

/// ASCII lowercase of every character.
pub open spec fn lower_seq(s: Seq<char>) -> Seq<char> {
    s.map_values(|c: char| ascii_lower(c))
}

/// `s` ends with `suffix`.
pub open spec fn ends_with_seq(s: Seq<char>, suffix: Seq<char>) -> bool {
    suffix.len() <= s.len() && s.subrange(s.len() - suffix.len(), s.len() as int) == suffix
}

/// `s` starts with `prefix`.
pub open spec fn starts_with_seq(s: Seq<char>, prefix: Seq<char>) -> bool {
    prefix.len() <= s.len() && s.subrange(0, prefix.len() as int) == prefix
}

/// `pat` occurs in `s` at `i`.
pub open spec fn occurs_at(s: Seq<char>, pat: Seq<char>, i: int) -> bool {
    0 <= i && i + pat.len() <= s.len() && s.subrange(i, i + pat.len()) == pat
}

/// `pat` occurs somewhere in `s`.
pub open spec fn contains_seq(s: Seq<char>, pat: Seq<char>) -> bool {
    exists|i: int| occurs_at(s, pat, i)
}

/// Unicode `White_Space` characters (what `char::is_whitespace` accepts).
pub open spec fn is_whitespace(c: char) -> bool {
    ('\u{9}' <= c && c <= '\u{d}') || c == ' ' || c == '\u{85}' || c == '\u{a0}' || c == '\u{1680}'
        || ('\u{2000}' <= c && c <= '\u{200a}') || c == '\u{2028}' || c == '\u{2029}' || c == '\u{202f}'
        || c == '\u{205f}' || c == '\u{3000}'
}

/// `s` without its leading whitespace.
pub open spec fn trim_start_seq(s: Seq<char>) -> Seq<char>
    decreases s.len(),
{
    if s.len() > 0 && is_whitespace(s[0]) {
        trim_start_seq(s.drop_first())
    } else {
        s
    }
}

/// `s` without its trailing whitespace.
pub open spec fn trim_end_seq(s: Seq<char>) -> Seq<char>
    decreases s.len(),
{
    if s.len() > 0 && is_whitespace(s.last()) {
        trim_end_seq(s.drop_last())
    } else {
        s
    }
}

/// `s` without leading and trailing whitespace.
pub open spec fn trim_seq(s: Seq<char>) -> Seq<char> {
    trim_end_seq(trim_start_seq(s))
}

/// Whether `c` is whitespace.
pub fn is_whitespace_char(c: char) -> (r: bool)
    ensures
        r == is_whitespace(c),
{
    ('\u{9}' <= c && c <= '\u{d}') || c == ' ' || c == '\u{85}' || c == '\u{a0}' || c == '\u{1680}'
        || ('\u{2000}' <= c && c <= '\u{200a}') || c == '\u{2028}' || c == '\u{2029}' || c == '\u{202f}'
        || c == '\u{205f}' || c == '\u{3000}'
}

/// `s` without leading and trailing whitespace.
pub fn trim_chars(s: &[char]) -> (r: Vec<char>)
    ensures
        r@ == trim_seq(s@),
{
    let mut start: usize = 0;
    assert(s@.subrange(0, s@.len() as int) =~= s@);
    while start < s.len() && is_whitespace_char(s[start])
        invariant
            start <= s@.len(),
            trim_start_seq(s@.subrange(start as int, s@.len() as int)) == trim_start_seq(s@),
        decreases s@.len() - start,
    {
        assert(s@.subrange(start as int, s@.len() as int).drop_first() =~= s@.subrange(start + 1, s@.len() as int));
        start += 1;
    }
    let ghost front = s@.subrange(start as int, s@.len() as int);
    assert(trim_start_seq(front) == front);
    let mut end: usize = s.len();
    while end > start && is_whitespace_char(s[end - 1])
        invariant
            start <= end <= s@.len(),
            trim_end_seq(s@.subrange(start as int, end as int)) == trim_end_seq(front),
        decreases end,
    {
        assert(s@.subrange(start as int, end as int).drop_last() =~= s@.subrange(start as int, end - 1));
        end -= 1;
    }
    let mut out: Vec<char> = Vec::new();
    let mut i = start;
    while i < end
        invariant
            start <= i <= end <= s@.len(),
            out@ == s@.subrange(start as int, i as int),
        decreases end - i,
    {
        out.push(s[i]);
        i += 1;
    }
    out
}

/// `s` without leading and trailing copies of `c`.
pub open spec fn trim_char_seq(s: Seq<char>, c: char) -> Seq<char>
    decreases s.len(),
{
    if s.len() > 0 && s[0] == c {
        trim_char_seq(s.drop_first(), c)
    } else if s.len() > 0 && s.last() == c {
        trim_char_seq(s.drop_last(), c)
    } else {
        s
    }
}

/// Position of the last `c` in `s`, `-1` when there is none.
pub open spec fn last_index_of(s: Seq<char>, c: char) -> int
    decreases s.len(),
{
    if s.len() == 0 {
        -1
    } else if s.last() == c {
        s.len() - 1
    } else {
        last_index_of(s.drop_last(), c)
    }
}

/// The pieces of `s` between the separators `c`, empty ones included.
pub open spec fn split_seq(s: Seq<char>, c: char) -> Seq<Seq<char>>
    decreases s.len(),
{
    let j = last_index_of(s, c);
    if j < 0 || j >= s.len() {
        seq![s]
    } else {
        split_seq(s.take(j), c).push(s.skip(j + 1))
    }
}

/// `s` without trailing copies of `c`.
pub open spec fn trim_end_char_seq(s: Seq<char>, c: char) -> Seq<char>
    decreases s.len(),
{
    if s.len() > 0 && s.last() == c {
        trim_end_char_seq(s.drop_last(), c)
    } else {
        s
    }
}

/// The non-empty pieces of `parts`, in order.
pub open spec fn nonempty_parts(parts: Seq<Seq<char>>) -> Seq<Seq<char>>
    decreases parts.len(),
{
    if parts.len() == 0 {
        Seq::empty()
    } else if parts.last().len() > 0 {
        nonempty_parts(parts.drop_last()).push(parts.last())
    } else {
        nonempty_parts(parts.drop_last())
    }
}

/// The pieces joined with `sep` between them.
pub open spec fn join_seq(parts: Seq<Seq<char>>, sep: char) -> Seq<char>
    decreases parts.len(),
{
    if parts.len() == 0 {
        Seq::empty()
    } else if parts.len() == 1 {
        parts[0]
    } else {
        join_seq(parts.drop_last(), sep) + seq![sep] + parts.last()
    }
}

/// Equal once both are ASCII-lowercased.
pub open spec fn eq_ignore_case(a: Seq<char>, b: Seq<char>) -> bool {
    lower_seq(a) == lower_seq(b)
}

/// The characters of `s`.
pub fn chars_of(s: &str) -> (r: Vec<char>)
    ensures
        r@ == s@,
{
    let mut out: Vec<char> = Vec::new();
    for c in it: s.chars()
        invariant
            out@ == it.seq().take(it.index() as int),
    {
        out.push(c);
    }
    out
}

/// ASCII lowercase of one character.
pub fn to_ascii_lower(c: char) -> (r: char)
    ensures
        r == ascii_lower(c),
{
    if 'A' <= c && c <= 'Z' {
        let b = (c as u32 + 32) as u8;
        assert(b as char == ((c as u32) + 32) as char);
        b as char
    } else {
        c
    }
}

/// The characters of `s`, ASCII-lowercased.
pub fn lowercase_chars(s: &str) -> (r: Vec<char>)
    ensures
        r@ == lower_seq(s@),
{
    let chars = chars_of(s);
    let mut out: Vec<char> = Vec::new();
    let mut i: usize = 0;
    while i < chars.len()
        invariant
            i <= chars@.len(),
            chars@ == s@,
            out@ == lower_seq(s@).take(i as int),
        decreases chars@.len() - i,
    {
        out.push(to_ascii_lower(chars[i]));
        i += 1;
        assert(out@ =~= lower_seq(s@).take(i as int));
    }
    assert(lower_seq(s@).take(i as int) =~= lower_seq(s@));
    out
}

/// Whether `s[at..at + pat.len()]` equals `pat`.
pub fn matches_at(s: &[char], pat: &[char], at: usize) -> (r: bool)
    requires
        at + pat@.len() <= s@.len(),
    ensures
        r == (s@.subrange(at as int, at + pat@.len()) == pat@),
{
    let n = s.len();
    let mut i: usize = 0;
    while i < pat.len()
        invariant
            n == s@.len(),
            at + pat@.len() <= s@.len(),
            i <= pat@.len(),
            forall|j: int| 0 <= j < i ==> s@[at + j] == pat@[j],
        decreases pat@.len() - i,
    {
        if s[at + i] != pat[i] {
            assert(s@.subrange(at as int, at + pat@.len())[i as int] != pat@[i as int]);
            return false;
        }
        i += 1;
    }
    assert(s@.subrange(at as int, at + pat@.len()) =~= pat@);
    true
}

/// Whether `s` ends with `suffix`.
pub fn ends_with(s: &[char], suffix: &[char]) -> (r: bool)
    ensures
        r == ends_with_seq(s@, suffix@),
{
    if suffix.len() > s.len() {
        return false;
    }
    matches_at(s, suffix, s.len() - suffix.len())
}

/// Whether `s` starts with `prefix`.
pub fn starts_with(s: &[char], prefix: &[char]) -> (r: bool)
    ensures
        r == starts_with_seq(s@, prefix@),
{
    if prefix.len() > s.len() {
        return false;
    }
    matches_at(s, prefix, 0)
}

/// Whether `pat` occurs in `s`.
pub fn contains(s: &[char], pat: &[char]) -> (r: bool)
    ensures
        r == contains_seq(s@, pat@),
{
    if pat.len() > s.len() {
        return false;
    }
    let last = s.len() - pat.len();
    let mut i: usize = 0;
    loop
        invariant
            pat@.len() <= s@.len(),
            last == s@.len() - pat@.len(),
            i <= last,
            forall|j: int| 0 <= j < i ==> !occurs_at(s@, pat@, j),
        decreases last - i,
    {
        if matches_at(s, pat, i) {
            assert(occurs_at(s@, pat@, i as int));
            return true;
        }
        if i == last {
            assert(forall|j: int| #![trigger occurs_at(s@, pat@, j)] !occurs_at(s@, pat@, j));
            return false;
        }
        i += 1;
    }
}

/// Whether the characters `a` spell `lit`.
pub fn chars_equal(a: &[char], lit: &str) -> (r: bool)
    ensures
        r == (a@ == lit@),
{
    let b = chars_of(lit);
    if a.len() != b.len() {
        return false;
    }
    let mut i: usize = 0;
    while i < a.len()
        invariant
            a@.len() == b@.len(),
            b@ == lit@,
            i <= a@.len(),
            forall|j: int| 0 <= j < i ==> a@[j] == b@[j],
        decreases a@.len() - i,
    {
        if a[i] != b[i] {
            return false;
        }
        i += 1;
    }
    assert(a@ =~= b@);
    true
}

/// `char::from_u32`: the character with scalar value `v`, `None` when `v`
/// is not a Unicode scalar value.
#[verifier::external_body]
pub fn char_from_u32(v: u32) -> (r: Option<char>)
    ensures
        r == (if is_scalar(v) { Some(v as char) } else { None::<char> }),
{
    char::from_u32(v)
}

/// The first character encoded in `s[from..]` and the length of its
/// encoding; `None` when `s[from..]` does not start with a well-formed
/// encoding of a Unicode scalar.
pub fn decode_scalar_at(s: &[u8], from: usize) -> (r: Option<(char, usize)>)
    requires
        from <= s@.len(),
    ensures
        match r {
            Some((c, n)) => valid_first_scalar(s@.subrange(from as int, s@.len() as int))
                && c == decode_first_scalar(s@.subrange(from as int, s@.len() as int)) as char
                && n == length_of_first_scalar(s@.subrange(from as int, s@.len() as int)),
            None => !valid_first_scalar(s@.subrange(from as int, s@.len() as int)),
        },
{
    let ghost rest = s@.subrange(from as int, s@.len() as int);
    let avail = s.len() - from;
    if avail == 0 {
        return None;
    }
    let b0 = s[from];
    let (cp, n): (u32, usize) = if b0 <= 0x7f {
        assert(b0 as u32 & 0x7f <= 0x7f) by (bit_vector);
        (b0 as u32 & 0x7f, 1)
    } else if 0xc0 <= b0 && b0 <= 0xdf {
        if avail < 2 || !(0x80 <= s[from + 1] && s[from + 1] <= 0xbf) {
            return None;
        }
        let b1 = s[from + 1];
        assert(((b0 & 0x1f) as u32) << 6u32 | (b1 & 0x3f) as u32 <= 0x7ff) by (bit_vector);
        (((b0 & 0x1f) as u32) << 6u32 | (b1 & 0x3f) as u32, 2)
    } else if 0xe0 <= b0 && b0 <= 0xef {
        if avail < 3 || !(0x80 <= s[from + 1] && s[from + 1] <= 0xbf) || !(0x80 <= s[from + 2] && s[from + 2] <= 0xbf) {
            return None;
        }
        let b1 = s[from + 1];
        let b2 = s[from + 2];
        assert(((b0 & 0x0f) as u32) << 12u32 | ((b1 & 0x3f) as u32) << 6u32 | (b2 & 0x3f) as u32 <= 0xffff) by (bit_vector);
        (((b0 & 0x0f) as u32) << 12u32 | ((b1 & 0x3f) as u32) << 6u32 | (b2 & 0x3f) as u32, 3)
    } else if 0xf0 <= b0 && b0 <= 0xf7 {
        if avail < 4 || !(0x80 <= s[from + 1] && s[from + 1] <= 0xbf) || !(0x80 <= s[from + 2] && s[from + 2] <= 0xbf)
            || !(0x80 <= s[from + 3] && s[from + 3] <= 0xbf) {
            return None;
        }
        let b1 = s[from + 1];
        let b2 = s[from + 2];
        let b3 = s[from + 3];
        (((b0 & 0x07) as u32) << 18u32 | ((b1 & 0x3f) as u32) << 12u32 | ((b2 & 0x3f) as u32) << 6u32 | (b3 & 0x3f) as u32, 4)
    } else {
        return None;
    };
    proof {
        assert(rest[0] == b0);
        if n == 1 {
            assert(cp == codepoint_width_1(rest[0]));
        } else if n == 2 {
            assert(cp == codepoint_width_2(rest[0], rest[1]));
        } else if n == 3 {
            assert(cp == codepoint_width_3(rest[0], rest[1], rest[2]));
        } else {
            assert(cp == codepoint_width_4(rest[0], rest[1], rest[2], rest[3]));
        }
    }
    if (n == 2 && cp < 0x80) || (n == 3 && cp < 0x800) || (n == 4 && (cp < 0x10000 || cp > 0x10ffff)) {
        return None;
    }
    if 0xd800 <= cp && cp <= 0xdfff {
        return None;
    }
    match char_from_u32(cp) {
        Some(c) => Some((c, n)),
        None => None,
    }
}

/// Whether `s[from..]` is well-formed UTF-8.
pub fn utf8_valid_from(s: &[u8], from: usize) -> (r: bool)
    requires
        from <= s@.len(),
    ensures
        r == valid_utf8(s@.subrange(from as int, s@.len() as int)),
{
    let mut at = from;
    while at < s.len()
        invariant
            from <= at <= s@.len(),
            valid_utf8(s@.subrange(at as int, s@.len() as int)) == valid_utf8(s@.subrange(from as int, s@.len() as int)),
        decreases s@.len() - at,
    {
        let ghost rest = s@.subrange(at as int, s@.len() as int);
        match decode_scalar_at(s, at) {
            None => {
                return false;
            },
            Some((_, n)) => {
                assert(pop_first_scalar(rest) =~= s@.subrange(at + n, s@.len() as int));
                at = at + n;
            },
        }
    }
    assert(s@.subrange(at as int, s@.len() as int).len() == 0);
    true
}

/// `s` without leading and trailing copies of `c`.
pub fn trim_char(s: &[char], c: char) -> (r: Vec<char>)
    ensures
        r@ == trim_char_seq(s@, c),
{
    let mut start: usize = 0;
    let mut end: usize = s.len();
    assert(s@.subrange(0, s@.len() as int) =~= s@);
    loop
        invariant
            start <= end <= s@.len(),
            trim_char_seq(s@.subrange(start as int, end as int), c) == trim_char_seq(s@, c),
        ensures
            start <= end <= s@.len(),
            s@.subrange(start as int, end as int) == trim_char_seq(s@, c),
        decreases end - start,
    {
        let ghost cur = s@.subrange(start as int, end as int);
        if start < end && s[start] == c {
            assert(cur.drop_first() =~= s@.subrange(start + 1, end as int));
            start += 1;
        } else if start < end && s[end - 1] == c {
            assert(cur.drop_last() =~= s@.subrange(start as int, end - 1));
            end -= 1;
        } else {
            assert(trim_char_seq(cur, c) == cur);
            break;
        }
    }
    let mut out: Vec<char> = Vec::new();
    let mut i = start;
    while i < end
        invariant
            start <= i <= end <= s@.len(),
            out@ == s@.subrange(start as int, i as int),
        decreases end - i,
    {
        out.push(s[i]);
        i += 1;
    }
    out
}

proof fn lemma_split_step(s: Seq<char>, c: char, i: int)
    requires
        0 <= i < s.len(),
    ensures
        s[i] == c ==> split_seq(s.take(i + 1), c) == split_seq(s.take(i), c).push(Seq::<char>::empty()),
        s[i] != c ==> split_seq(s.take(i + 1), c) == split_seq(s.take(i), c).update(
            split_seq(s.take(i), c).len() - 1, split_seq(s.take(i), c).last().push(s[i])),
        split_seq(s.take(i), c).len() >= 1,
{
    let t = s.take(i + 1);
    assert(t.drop_last() =~= s.take(i));
    lemma_split_len(s.take(i), c);
    if s[i] == c {
        assert(t.take(i) =~= s.take(i));
        assert(t.skip(i + 1) =~= Seq::<char>::empty());
    } else {
        let j = last_index_of(s.take(i), c);
        lemma_last_index_bounds(s.take(i), c);
        if j >= 0 {
            assert(t.take(j) =~= s.take(i).take(j));
            assert(t.skip(j + 1) =~= s.take(i).skip(j + 1).push(s[i]));
        } else {
            assert(t =~= s.take(i).push(s[i]));
        }
    }
}

proof fn lemma_last_index_bounds(s: Seq<char>, c: char)
    ensures
        -1 <= last_index_of(s, c) < s.len(),
        last_index_of(s, c) >= 0 ==> s[last_index_of(s, c)] == c,
    decreases s.len(),
{
    if s.len() > 0 && s.last() != c {
        lemma_last_index_bounds(s.drop_last(), c);
    }
}

proof fn lemma_split_len(s: Seq<char>, c: char)
    ensures
        split_seq(s, c).len() >= 1,
    decreases s.len(),
{
    let j = last_index_of(s, c);
    lemma_last_index_bounds(s, c);
    if j >= 0 {
        lemma_split_len(s.take(j), c);
    }
}

/// The views of a list of character vectors.
pub open spec fn views(parts: Seq<Vec<char>>) -> Seq<Seq<char>> {
    parts.map_values(|v: Vec<char>| v@)
}

/// The pieces of `s` between the separators `c`, empty ones included.
pub fn split_chars(s: &[char], c: char) -> (r: Vec<Vec<char>>)
    ensures
        views(r@) == split_seq(s@, c),
{
    let mut parts: Vec<Vec<char>> = Vec::new();
    let mut cur: Vec<char> = Vec::new();
    let mut i: usize = 0;
    assert(s@.take(0) =~= Seq::<char>::empty());
    assert(views(parts@).push(cur@) =~= split_seq(s@.take(0), c));
    while i < s.len()
        invariant
            i <= s@.len(),
            views(parts@).push(cur@) == split_seq(s@.take(i as int), c),
        decreases s@.len() - i,
    {
        proof {
            lemma_split_step(s@, c, i as int);
        }
        if s[i] == c {
            let ghost before = views(parts@).push(cur@);
            let done = cur;
            parts.push(done);
            cur = Vec::new();
            assert(views(parts@) =~= before);
        } else {
            let ghost before = views(parts@).push(cur@);
            cur.push(s[i]);
            assert(views(parts@).push(cur@) =~= before.update(before.len() - 1, before.last().push(s@[i as int])));
        }
        i += 1;
    }
    assert(s@.take(s@.len() as int) =~= s@);
    parts.push(cur);
    assert(views(parts@) =~= split_seq(s@, c));
    parts
}

/// The non-empty pieces of `parts` joined with `sep`.
pub fn join_nonempty(parts: &Vec<Vec<char>>, sep: char) -> (r: Vec<char>)
    ensures
        r@ == join_seq(nonempty_parts(views(parts@)), sep),
{
    let mut out: Vec<char> = Vec::new();
    let mut count: usize = 0;
    let mut i: usize = 0;
    assert(views(parts@).take(0) =~= Seq::<Seq<char>>::empty());
    while i < parts.len()
        invariant
            i <= parts@.len(),
            count == nonempty_parts(views(parts@).take(i as int)).len(),
            out@ == join_seq(nonempty_parts(views(parts@).take(i as int)), sep),
            count <= i,
        decreases parts@.len() - i,
    {
        let ghost prefix = views(parts@).take(i as int);
        assert(views(parts@).take(i + 1).drop_last() =~= prefix);
        assert(views(parts@).take(i + 1).last() == parts@[i as int]@);
        let part = &parts[i];
        if part.len() > 0 {
            if count > 0 {
                out.push(sep);
            }
            let mut j: usize = 0;
            let ghost base = out@;
            while j < part.len()
                invariant
                    j <= part@.len(),
                    out@ == base + part@.take(j as int),
                decreases part@.len() - j,
            {
                out.push(part[j]);
                j += 1;
                assert(out@ =~= base + part@.take(j as int));
            }
            assert(part@.take(j as int) =~= part@);
            let ghost joined = nonempty_parts(prefix).push(part@);
            assert(joined.drop_last() =~= nonempty_parts(prefix));
            assert(out@ =~= join_seq(joined, sep));
            count += 1;
        }
        i += 1;
    }
    assert(views(parts@).take(i as int) =~= views(parts@));
    out
}

/// Whether `a` equals `lit` ignoring ASCII case.
pub fn eq_ignore_case_str(a: &[char], lit: &str) -> (r: bool)
    ensures
        r == eq_ignore_case(a@, lit@),
{
    let b = chars_of(lit);
    if a.len() != b.len() {
        assert(lower_seq(a@).len() != lower_seq(b@).len());
        return false;
    }
    let mut i: usize = 0;
    while i < a.len()
        invariant
            b@ == lit@,
            a@.len() == b@.len(),
            i <= a@.len(),
            forall|j: int| 0 <= j < i ==> lower_seq(a@)[j] == lower_seq(b@)[j],
        decreases a@.len() - i,
    {
        if to_ascii_lower(a[i]) != to_ascii_lower(b[i]) {
            assert(lower_seq(a@)[i as int] != lower_seq(b@)[i as int]);
            return false;
        }
        i += 1;
    }
    assert(lower_seq(a@) =~= lower_seq(b@));
    true
}

/// What `str::to_lowercase` gives for the characters `s`: the Unicode
/// lowercase mapping.
pub uninterp spec fn unicode_lowercase(s: Seq<char>) -> Seq<char>;

/// `str::to_lowercase`: the Unicode lowercase of `s`.  The mapping itself
/// is left to the name `unicode_lowercase`.
#[verifier::external_body]
pub fn to_lowercase(s: &str) -> (r: String)
    ensures
        r@ == unicode_lowercase(s@),
{
    s.to_lowercase()
}

/// `String::push`: appends `c` to `s`.
#[verifier::external_body]
pub fn push_char(s: &mut String, c: char)
    ensures
        final(s)@ == old(s)@.push(c),
{
    s.push(c);
}

/// A string holding exactly the characters `chars`.
pub fn string_from_chars(chars: &[char]) -> (r: String)
    ensures
        r@ == chars@,
{
    let mut out = String::new();
    let mut i: usize = 0;
    while i < chars.len()
        invariant
            i <= chars@.len(),
            out@ == chars@.take(i as int),
        decreases chars@.len() - i,
    {
        push_char(&mut out, chars[i]);
        i += 1;
        assert(out@ =~= chars@.take(i as int));
    }
    assert(chars@.take(i as int) =~= chars@);
    out
}

} // verus!
