//! Path rules applied while walking volumes for images.

use crate::text::{
    chars_equal, chars_of, ends_with, ends_with_seq, eq_ignore_case, eq_ignore_case_str, join_nonempty, join_seq,
    nonempty_parts, split_chars, split_seq, starts_with_seq, string_from_chars, to_lowercase, trim_char, trim_char_seq,
    trim_chars, trim_end_char_seq, trim_seq, unicode_lowercase, views,
};
use vstd::prelude::*;

verus! {

/// A scan root in canonical form: `/` for a blank, `.` or `/` root, else the
/// trimmed path without its outer slashes, after a single `/`.
pub open spec fn scan_path(path: Seq<char>) -> Seq<char> {
    let t = trim_seq(path);
    if t.len() == 0 || t == seq!['.'] || t == seq!['/'] {
        seq!['/']
    } else {
        seq!['/'] + trim_char_seq(t, '/')
    }
}

/// Canonical form of a scan root.
pub fn normalize_scan_path(path: &str) -> (r: String)
    ensures
        r@ == scan_path(path@),
{
    let chars = chars_of(path);
    let trimmed = trim_chars(chars.as_slice());
    if trimmed.len() == 0 || (trimmed.len() == 1 && (trimmed[0] == '.' || trimmed[0] == '/')) {
        assert(trimmed.len() == 1 ==> trimmed@ =~= seq![trimmed[0]]);
        return string_from_chars(&['/']);
    }
    assert(trimmed.len() == 1 ==> trimmed@ =~= seq![trimmed[0]]);
    let inner = trim_char(trimmed.as_slice(), '/');
    let mut out: Vec<char> = Vec::new();
    out.push('/');
    let mut i: usize = 0;
    while i < inner.len()
        invariant
            i <= inner@.len(),
            out@ == seq!['/'] + inner@.take(i as int),
        decreases inner@.len() - i,
    {
        out.push(inner[i]);
        i += 1;
        assert(out@ =~= seq!['/'] + inner@.take(i as int));
    }
    assert(inner@.take(i as int) =~= inner@);
    string_from_chars(out.as_slice())
}

/// The firmware-relative form of a path: its non-empty `/`-separated parts
/// joined with `\`.
pub open spec fn uefi_relative_path(path: Seq<char>) -> Seq<char> {
    join_seq(nonempty_parts(split_seq(trim_char_seq(path, '/'), '/')), '\\')
}

/// A path in the form the firmware's file protocol expects.
pub fn to_uefi_relative_path(path: &str) -> (r: String)
    ensures
        r@ == uefi_relative_path(path@),
{
    let chars = chars_of(path);
    let trimmed = trim_char(chars.as_slice(), '/');
    let parts = split_chars(trimmed.as_slice(), '/');
    let joined = join_nonempty(&parts, '\\');
    string_from_chars(joined.as_slice())
}

/// The path shown for entry `name` of directory `parent`.
pub open spec fn display_path(parent: Seq<char>, name: Seq<char>) -> Seq<char> {
    if parent == seq!['/'] || parent.len() == 0 {
        seq!['/'] + name
    } else {
        trim_end_char_seq(parent, '/') + seq!['/'] + name
    }
}

/// The path shown for entry `name` of directory `parent`.
pub fn join_display_path(parent: &str, name: &str) -> (r: String)
    ensures
        r@ == display_path(parent@, name@),
{
    let p = chars_of(parent);
    let n = chars_of(name);
    let mut out: Vec<char> = Vec::new();
    if p.len() == 0 || (p.len() == 1 && p[0] == '/') {
        assert(p.len() == 1 ==> p@ =~= seq!['/']);
        out.push('/');
    } else {
        assert(p.len() == 1 ==> p@ =~= seq![p[0]]);
        let mut end = p.len();
        assert(p@.take(p@.len() as int) =~= p@);
        while end > 0 && p[end - 1] == '/'
            invariant
                end <= p@.len(),
                trim_end_char_seq(p@.take(end as int), '/') == trim_end_char_seq(p@, '/'),
            decreases end,
        {
            assert(p@.take(end as int).drop_last() =~= p@.take(end - 1));
            end -= 1;
        }
        let mut i: usize = 0;
        while i < end
            invariant
                i <= end <= p@.len(),
                out@ == p@.take(i as int),
            decreases end - i,
        {
            out.push(p[i]);
            i += 1;
            assert(out@ =~= p@.take(i as int));
        }
        out.push('/');
    }
    let ghost base = out@;
    let mut j: usize = 0;
    while j < n.len()
        invariant
            j <= n@.len(),
            out@ == base + n@.take(j as int),
        decreases n@.len() - j,
    {
        out.push(n[j]);
        j += 1;
        assert(out@ =~= base + n@.take(j as int));
    }
    assert(n@.take(j as int) =~= n@);
    assert(out@ =~= display_path(parent@, name@));
    string_from_chars(out.as_slice())
}

/// Some extension in `extensions` ends the already lowercased `lower`.
pub open spec fn ends_with_any(lower: Seq<char>, extensions: Seq<&str>) -> bool {
    exists|i: int| 0 <= i < extensions.len() && ends_with_seq(lower, extensions[i]@)
}

/// Whether the lowercased name ends with one of `extensions`.
pub fn has_supported_extension_lowercase(lower: &str, extensions: &[&str]) -> (r: bool)
    ensures
        r == ends_with_any(lower@, extensions@),
{
    let l = chars_of(lower);
    let mut i: usize = 0;
    while i < extensions.len()
        invariant
            i <= extensions@.len(),
            l@ == lower@,
            forall|j: int| 0 <= j < i ==> !ends_with_seq(lower@, extensions@[j]@),
        decreases extensions@.len() - i,
    {
        let ext = chars_of(extensions[i]);
        if ends_with(l.as_slice(), ext.as_slice()) {
            return true;
        }
        i += 1;
    }
    false
}

/// Whether `name`, ignoring case, ends with one of `extensions`.
pub fn has_supported_extension(name: &str, extensions: &[&str]) -> (r: bool)
    ensures
        r == ends_with_any(unicode_lowercase(name@), extensions@),
{
    let lower = to_lowercase(name);
    has_supported_extension_lowercase(lower.as_str(), extensions)
}

/// System and trash directories that are never searched.
pub open spec fn hidden_tree(name: Seq<char>) -> bool {
    name == "$RECYCLE.BIN"@ || name == "System Volume Information"@ || name == ".Trash"@ || name == ".Spotlight-V100"@
        || name == ".fseventsd"@
}

/// Whether `name` is a system or trash directory.
pub fn is_hidden_tree(name: &str) -> (r: bool)
    ensures
        r == hidden_tree(name@),
{
    let n = chars_of(name);
    let s = n.as_slice();
    chars_equal(s, "$RECYCLE.BIN") || chars_equal(s, "System Volume Information") || chars_equal(s, ".Trash")
        || chars_equal(s, ".Spotlight-V100") || chars_equal(s, ".fseventsd")
}

/// The `/`-separated parts of a path without its outer slashes.
pub open spec fn path_parts(path: Seq<char>) -> Seq<Seq<char>> {
    split_seq(trim_char_seq(path, '/'), '/')
}

/// The path lies in the top-level `ventoy` directory (any case), where
/// Ventoy keeps its plugins.
pub open spec fn ventoy_plugin_tree(path: Seq<char>) -> bool {
    eq_ignore_case(path_parts(path)[0], "ventoy"@)
}

/// Whether `path` lies in the Ventoy plugin directory.
pub fn is_ventoy_plugin_tree_path(path: &str) -> (r: bool)
    ensures
        r == ventoy_plugin_tree(path@),
{
    let chars = chars_of(path);
    let trimmed = trim_char(chars.as_slice(), '/');
    let parts = split_chars(trimmed.as_slice(), '/');
    proof {
        assert(views(parts@).len() == parts@.len());
    }
    if parts.len() == 0 {
        return false;
    }
    eq_ignore_case_str(parts[0].as_slice(), "ventoy")
}

/// The path is `/EFI/BOOT/BOOT<arch>.EFI` (any case) for one of the four
/// architectures firmware boots by default.
pub open spec fn default_uefi_bootloader(path: Seq<char>) -> bool {
    let parts = path_parts(path);
    &&& parts.len() == 3
    &&& eq_ignore_case(parts[0], "efi"@)
    &&& eq_ignore_case(parts[1], "boot"@)
    &&& (eq_ignore_case(parts[2], "bootx64.efi"@) || eq_ignore_case(parts[2], "bootaa64.efi"@)
        || eq_ignore_case(parts[2], "bootia32.efi"@) || eq_ignore_case(parts[2], "bootarm.efi"@))
}

/// Whether `path` is a firmware default boot loader rather than an image.
pub fn is_default_uefi_bootloader_path(path: &str) -> (r: bool)
    ensures
        r == default_uefi_bootloader(path@),
{
    let chars = chars_of(path);
    let trimmed = trim_char(chars.as_slice(), '/');
    let parts = split_chars(trimmed.as_slice(), '/');
    proof {
        assert(views(parts@).len() == parts@.len());
    }
    if parts.len() != 3 {
        return false;
    }
    if !eq_ignore_case_str(parts[0].as_slice(), "efi") || !eq_ignore_case_str(parts[1].as_slice(), "boot") {
        return false;
    }
    let filename = parts[2].as_slice();
    eq_ignore_case_str(filename, "bootx64.efi") || eq_ignore_case_str(filename, "bootaa64.efi")
        || eq_ignore_case_str(filename, "bootia32.efi") || eq_ignore_case_str(filename, "bootarm.efi")
}

/// Whether `name` is an AppleDouble `._` companion file.
pub fn is_dot_underscore_file(name: &str) -> (r: bool)
    ensures
        r == starts_with_seq(name@, seq!['.', '_']),
{
    let n = chars_of(name);
    crate::text::starts_with(n.as_slice(), &['.', '_'])
}

} // verus!
