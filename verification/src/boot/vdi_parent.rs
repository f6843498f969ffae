//! Finding the parent image of a differencing VDI: paths of the files next
//! to it.

use super::util::rfind;
use crate::scanner::paths::{display_path, join_display_path};
use crate::text::{chars_of, ends_with, ends_with_seq, last_index_of, lower_seq, string_from_chars, to_ascii_lower, trim_end_char_seq};
use vstd::prelude::*;

verus! {

/// The directory holding `path`: the path without trailing slashes, up to
/// its last `/`; `/` at the top.
pub open spec fn parent_directory(path: Seq<char>) -> Seq<char> {
    let t = trim_end_char_seq(path, '/');
    let j = last_index_of(t, '/');
    if j <= 0 {
        seq!['/']
    } else {
        t.take(j)
    }
}

/// The directory holding `path`.
pub fn parent_dir(path: &str) -> (r: String)
    ensures
        r@ == parent_directory(path@),
{
    let p = chars_of(path);
    let mut end = p.len();
    assert(p@.take(p@.len() as int) =~= p@);
    while end > 0 && p[end - 1] == '/'
        invariant
            end <= p@.len(),
            trim_end_char_seq(p@.take(end as int), '/') == trim_end_char_seq(p@, '/'),
        decreases end,
    {
        assert(p@.take(end as int).drop_last() =~= p@.take(end - 1));
        end -= 1;
    }
    let trimmed = vstd::slice::slice_subrange(p.as_slice(), 0, end);
    assert(trimmed@ =~= p@.take(end as int));
    assert(trim_end_char_seq(trimmed@, '/') == trimmed@);
    match rfind(trimmed, '/') {
        Some(index) => {
            if index == 0 {
                string_from_chars(&['/'])
            } else {
                string_from_chars(vstd::slice::slice_subrange(trimmed, 0, index))
            }
        },
        None => string_from_chars(&['/']),
    }
}

/// The path of `name` in the directory `parent`.
pub fn join_path(parent: &str, name: &str) -> (r: String)
    ensures
        r@ == display_path(parent@, name@),
{
    join_display_path(parent, name)
}

/// A file name ending in `.vdi` or `.vdibase`, ignoring ASCII case.
pub open spec fn vdi_parent_candidate(name: Seq<char>) -> bool {
    ends_with_seq(lower_seq(name), ".vdi"@) || ends_with_seq(lower_seq(name), ".vdibase"@)
}

/// Whether a file may be the parent image of a differencing VDI.
pub fn is_vdi_parent_candidate_name(name: &str) -> (r: bool)
    ensures
        r == vdi_parent_candidate(name@),
{
    let chars = chars_of(name);
    let mut lower: Vec<char> = Vec::new();
    let mut i: usize = 0;
    while i < chars.len()
        invariant
            i <= chars@.len(),
            lower@ == lower_seq(chars@.take(i as int)),
        decreases chars@.len() - i,
    {
        lower.push(to_ascii_lower(chars[i]));
        i += 1;
        assert(lower@ =~= lower_seq(chars@.take(i as int)));
    }
    assert(chars@.take(i as int) =~= chars@);
    let a = chars_of(".vdi");
    let b = chars_of(".vdibase");
    ends_with(lower.as_slice(), a.as_slice()) || ends_with(lower.as_slice(), b.as_slice())
}

} // verus!
