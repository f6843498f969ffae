//! Small rules shared by the boot paths: menu selections, ISO paths, device
//! path prefixes, alignment and the byte records handed to booted systems.

use crate::bytes::{le_u32_bytes, le_u64_bytes};
use crate::scanner::model::{IsoExtent, OsType};
use crate::text::{
    chars_of, contains, ends_with, ends_with_seq, contains_seq, join_nonempty, join_seq, last_index_of, lower_seq,
    nonempty_parts, split_chars, split_seq, string_from_chars, to_ascii_lower, trim_chars, trim_seq, views,
};
use vstd::prelude::*;

pub use crate::bytes::{push_u16, push_u32, push_u64};

verus! {

/// The plugin chosen by a 1-based `autosel` among `count` choices; `0`, no
/// choice or one past the end selects none.
pub open spec fn plugin_index(autosel: Option<usize>, count: usize) -> Option<usize> {
    match autosel {
        Some(v) => if 1 <= v <= count { Some((v - 1) as usize) } else { None },
        None => None,
    }
}

/// Which Ventoy plugin entry an `autosel` setting picks.
pub fn selected_ventoy_plugin_index(autosel: Option<usize>, count: usize) -> (r: Option<usize>)
    ensures
        r == plugin_index(autosel, count),
        r matches Some(i) ==> i < count,
{
    match autosel {
        Some(value) => if value != 0 && value <= count { Some(value - 1) } else { None },
        None => None,
    }
}

/// Like [`plugin_index`], except that without a setting a single backend is
/// taken.
pub open spec fn persistence_index(autosel: Option<usize>, count: usize) -> Option<usize> {
    if autosel is None && count == 1 {
        Some(0)
    } else {
        plugin_index(autosel, count)
    }
}

/// Which persistence backend an `autosel` setting picks.
pub fn selected_persistence_backend_index(autosel: Option<usize>, count: usize) -> (r: Option<usize>)
    ensures
        r == persistence_index(autosel, count),
        r matches Some(i) ==> i < count,
{
    match autosel {
        Some(0) => None,
        Some(value) => selected_ventoy_plugin_index(Some(value), count),
        None => if count == 1 { Some(0) } else { None },
    }
}

/// Big-endian bytes of a `u32`.
pub open spec fn be_u32_bytes(v: u32) -> Seq<u8> {
    seq![((v >> 24u32) & 0xff) as u8, ((v >> 16u32) & 0xff) as u8, ((v >> 8u32) & 0xff) as u8, (v & 0xff) as u8]
}

/// Appends `value` big-endian.
fn push_be_u32(data: &mut Vec<u8>, value: u32)
    ensures
        final(data)@ == old(data)@ + be_u32_bytes(value),
{
    data.push(((value >> 24u32) & 0xff) as u8);
    data.push(((value >> 16u32) & 0xff) as u8);
    data.push(((value >> 8u32) & 0xff) as u8);
    data.push((value & 0xff) as u8);
    assert(data@ =~= old(data)@ + be_u32_bytes(value));
}

/// The extent fields of an ISO 9660 directory record, in its both-endian
/// form: the first sector, then the size.
pub open spec fn extent_patch(first_sector: u32, size: u32) -> Seq<u8> {
    le_u32_bytes(first_sector) + be_u32_bytes(first_sector) + le_u32_bytes(size) + be_u32_bytes(size)
}

/// The bytes that point an ISO 9660 directory record at another extent.
pub fn iso9660_file_extent_patch(first_sector: u32, size: u32) -> (r: Vec<u8>)
    ensures
        r@ == extent_patch(first_sector, size),
{
    let mut patch: Vec<u8> = Vec::new();
    push_u32(&mut patch, first_sector);
    push_be_u32(&mut patch, first_sector);
    push_u32(&mut patch, size);
    push_be_u32(&mut patch, size);
    assert(patch@ =~= extent_patch(first_sector, size));
    patch
}

/// `s` with every backslash turned into a slash.
pub open spec fn slashes(s: Seq<char>) -> Seq<char> {
    s.map_values(|c: char| if c == '\\' { '/' } else { c })
}

/// A path inside an ISO in canonical form: a leading `/`, then the
/// non-empty components between `/` or `\` separators of the trimmed path,
/// joined with `/`.
pub open spec fn iso_path(path: Seq<char>) -> Seq<char> {
    seq!['/'] + join_seq(nonempty_parts(split_seq(slashes(trim_seq(path)), '/')), '/')
}

/// Canonical form of a path inside an ISO.
pub fn normalize_iso_path(path: &str) -> (r: String)
    ensures
        r@ == iso_path(path@),
{
    let chars = chars_of(path);
    let trimmed = trim_chars(chars.as_slice());
    let mut unified: Vec<char> = Vec::new();
    let mut i: usize = 0;
    while i < trimmed.len()
        invariant
            i <= trimmed@.len(),
            unified@ == slashes(trimmed@.take(i as int)),
        decreases trimmed@.len() - i,
    {
        let c = trimmed[i];
        unified.push(if c == '\\' { '/' } else { c });
        i += 1;
        assert(unified@ =~= slashes(trimmed@.take(i as int)));
    }
    assert(trimmed@.take(i as int) =~= trimmed@);
    let parts = split_chars(unified.as_slice(), '/');
    let joined = join_nonempty(&parts, '/');
    let mut out: Vec<char> = Vec::new();
    out.push('/');
    let mut j: usize = 0;
    while j < joined.len()
        invariant
            j <= joined@.len(),
            out@ == seq!['/'] + joined@.take(j as int),
        decreases joined@.len() - j,
    {
        out.push(joined[j]);
        j += 1;
        assert(out@ =~= seq!['/'] + joined@.take(j as int));
    }
    assert(joined@.take(j as int) =~= joined@);
    string_from_chars(out.as_slice())
}

/// `paths` with `path` added at the end unless it is already there.
pub open spec fn with_unique(paths: Seq<Seq<char>>, path: Seq<char>) -> Seq<Seq<char>> {
    if paths.contains(path) {
        paths
    } else {
        paths.push(path)
    }
}

/// Adds the canonical form of `path` to `paths` unless it is already there.
/// A list without repeats stays without repeats.
pub fn push_unique_iso_path(paths: &mut Vec<String>, path: &str)
    ensures
        final(paths)@.map_values(|p: String| p@) == with_unique(
            old(paths)@.map_values(|p: String| p@),
            iso_path(path@),
        ),
        old(paths)@.map_values(|p: String| p@).no_duplicates() ==> final(paths)@.map_values(
            |p: String| p@,
        ).no_duplicates(),
{
    let normalized = normalize_iso_path(path);
    let ghost views = old(paths)@.map_values(|p: String| p@);
    let mut i: usize = 0;
    while i < paths.len()
        invariant
            paths@ == old(paths)@,
            views == old(paths)@.map_values(|p: String| p@),
            normalized@ == iso_path(path@),
            i <= paths@.len(),
            forall|j: int| 0 <= j < i ==> views[j] != normalized@,
        decreases paths@.len() - i,
    {
        if paths[i] == normalized {
            assert(views[i as int] == normalized@);
            assert(views.contains(normalized@));
            return;
        }
        i += 1;
    }
    assert(!views.contains(normalized@));
    paths.push(normalized);
    assert(final(paths)@.map_values(|p: String| p@) =~= views.push(iso_path(path@)));
}

/// The number of extent records an image takes in the runtime data: one per
/// extent, and one for an image without extents.
pub fn runtime_extent_count(extents: &[IsoExtent]) -> (r: usize)
    ensures
        r == (if extents@.len() == 0 {
            1
        } else {
            extents@.len()
        }),
{
    if extents.len() == 0 {
        1
    } else {
        extents.len()
    }
}

/// A path under an `isolinux` or `syslinux` directory, or an
/// `isolinux.cfg`, ignoring ASCII case.
pub open spec fn isolinux_config(path: Seq<char>) -> bool {
    let lower = lower_seq(path);
    contains_seq(lower, "/isolinux/"@) || contains_seq(lower, "/syslinux/"@) || ends_with_seq(lower, "isolinux.cfg"@)
}

/// Whether `path` names an isolinux/syslinux configuration.
pub fn is_isolinux_config_path(path: &str) -> (r: bool)
    ensures
        r == isolinux_config(path@),
{
    let chars = chars_of(path);
    let mut lower: Vec<char> = Vec::new();
    let mut i: usize = 0;
    while i < chars.len()
        invariant
            i <= chars@.len(),
            lower@ == lower_seq(chars@.take(i as int)),
        decreases chars@.len() - i,
    {
        lower.push(to_ascii_lower(chars[i]));
        i += 1;
        assert(lower@ =~= lower_seq(chars@.take(i as int)));
    }
    assert(chars@.take(i as int) =~= chars@);
    let a = chars_of("/isolinux/");
    let b = chars_of("/syslinux/");
    let c = chars_of("isolinux.cfg");
    contains(lower.as_slice(), a.as_slice()) || contains(lower.as_slice(), b.as_slice()) || ends_with(
        lower.as_slice(),
        c.as_slice(),
    )
}

/// The directory holding `path` inside an ISO: the canonical path up to its
/// last `/`, or `/` at the top.
pub open spec fn iso_parent(path: Seq<char>) -> Seq<char> {
    let n = iso_path(path);
    let j = last_index_of(n, '/');
    if j <= 0 {
        seq!['/']
    } else {
        n.take(j)
    }
}

/// Position of the last `c` in `s`.
pub(crate) fn rfind(s: &[char], c: char) -> (r: Option<usize>)
    ensures
        r matches Some(j) ==> j == last_index_of(s@, c) && j < s@.len(),
        r is None ==> last_index_of(s@, c) < 0,
{
    let mut i = s.len();
    assert(s@.take(i as int) =~= s@);
    while i > 0
        invariant
            i <= s@.len(),
            last_index_of(s@, c) == last_index_of(s@.take(i as int), c),
        decreases i,
    {
        assert(s@.take(i as int).drop_last() =~= s@.take(i - 1));
        if s[i - 1] == c {
            return Some(i - 1);
        }
        i -= 1;
    }
    None
}

/// The directory holding `path` inside an ISO.
pub fn iso_parent_dir(path: &str) -> (r: String)
    ensures
        r@ == iso_parent(path@),
{
    let normalized = normalize_iso_path(path);
    let chars = chars_of(normalized.as_str());
    match rfind(chars.as_slice(), '/') {
        Some(index) => {
            if index == 0 {
                string_from_chars(&['/'])
            } else {
                string_from_chars(vstd::slice::slice_subrange(chars.as_slice(), 0, index))
            }
        },
        None => string_from_chars(&['/']),
    }
}

/// The path a Linux loader configuration names, resolved against the
/// directory `base_dir` of the file that names it: absolute paths (with `/`
/// or `\`) as they are, relative ones under `base_dir`; both canonical.
pub open spec fn linux_config_path(base_dir: Seq<char>, path: Seq<char>) -> Seq<char> {
    let t = trim_seq(path);
    if t.len() > 0 && (t[0] == '/' || t[0] == '\\') {
        iso_path(t)
    } else if base_dir == seq!['/'] {
        iso_path(t)
    } else {
        iso_path(base_dir + seq!['/'] + t)
    }
}

/// Resolves a path named in a Linux loader configuration.
pub fn resolve_linux_config_path(base_dir: &str, path: &str) -> (r: String)
    ensures
        r@ == linux_config_path(base_dir@, path@),
{
    let chars = chars_of(path);
    let trimmed = trim_chars(chars.as_slice());
    let trimmed_str = string_from_chars(trimmed.as_slice());
    if trimmed.len() > 0 && (trimmed[0] == '/' || trimmed[0] == '\\') {
        return normalize_iso_path(trimmed_str.as_str());
    }
    let base = chars_of(base_dir);
    if base.len() == 1 && base[0] == '/' {
        assert(base@ =~= seq!['/']);
        return normalize_iso_path(trimmed_str.as_str());
    }
    assert(base@ != seq!['/']) by {
        if base@ == seq!['/'] {
            assert(base@.len() == 1 && base@[0] == '/');
        }
    }
    let mut joined: Vec<char> = base;
    joined.push('/');
    let mut i: usize = 0;
    let ghost head = joined@;
    while i < trimmed.len()
        invariant
            i <= trimmed@.len(),
            joined@ == head + trimmed@.take(i as int),
        decreases trimmed@.len() - i,
    {
        joined.push(trimmed[i]);
        i += 1;
        assert(joined@ =~= head + trimmed@.take(i as int));
    }
    assert(trimmed@.take(i as int) =~= trimmed@);
    assert(joined@ =~= base_dir@ + seq!['/'] + trim_seq(path@));
    let joined_str = string_from_chars(joined.as_slice());
    normalize_iso_path(joined_str.as_str())
}

/// Offset of the end node of a device path whose nodes all lie inside it;
/// `None` when a node is shorter than its 4-byte header or runs past the
/// end, or no end node comes before the bytes run out. Nodes are walked from
/// `offset` on.
pub open spec fn end_node_offset_from(path: Seq<u8>, offset: int) -> Option<usize>
    decreases path.len() - offset,
{
    if offset < 0 || offset + 4 > path.len() {
        None
    } else {
        let node_len = path[offset + 2] + path[offset + 3] * 256;
        if node_len < 4 || offset + node_len > path.len() {
            None
        } else if path[offset] == 0x7f && path[offset + 1] == 0xff {
            Some(offset as usize)
        } else {
            end_node_offset_from(path, offset + node_len)
        }
    }
}

proof fn lemma_end_node_offset_below_len(path: Seq<u8>, offset: int)
    ensures
        end_node_offset_from(path, offset) matches Some(n) ==> n < path.len(),
    decreases path.len() - offset,
{
    if offset >= 0 && offset + 4 <= path.len() {
        let node_len = path[offset + 2] + path[offset + 3] * 256;
        if node_len >= 4 && offset + node_len <= path.len() {
            lemma_end_node_offset_below_len(path, offset + node_len);
        }
    }
}

/// The length of a device path without its end node.
pub open spec fn end_node_offset(path: Seq<u8>) -> Option<usize> {
    if path.len() < 4 {
        None
    } else {
        end_node_offset_from(path, 0)
    }
}

/// Finds where the end node of a device path starts.
pub fn parent_without_end_len(path: &[u8]) -> (r: Option<usize>)
    ensures
        r == end_node_offset(path@),
        r matches Some(n) ==> n < path@.len(),
{
    let len = path.len();
    if len < 4 {
        return None;
    }
    proof {
        lemma_end_node_offset_below_len(path@, 0);
    }
    let mut offset: usize = 0;
    while offset <= len && len - offset >= 4
        invariant
            len == path@.len(),
            end_node_offset(path@) == end_node_offset_from(path@, offset as int),
        decreases len - offset,
    {
        let node_type = path[offset];
        let node_subtype = path[offset + 1];
        let node_len = path[offset + 2] as usize + path[offset + 3] as usize * 256;
        if node_len < 4 || node_len > len - offset {
            return None;
        }
        if node_type == 0x7f && node_subtype == 0xff {
            return Some(offset);
        }
        offset = offset + node_len;
    }
    None
}

proof fn lemma_end_node_fits(path: Seq<u8>, offset: int)
    requires
        path.len() <= usize::MAX,
    ensures
        end_node_offset_from(path, offset) matches Some(n) ==> {
            &&& n + 4 <= path.len()
            &&& n + path[n + 2] + path[n + 3] * 256 <= path.len()
            &&& path[n as int] == 0x7f
            &&& path[n + 1] == 0xff
        },
    decreases path.len() - offset,
{
    if offset >= 0 && offset + 4 <= path.len() {
        let node_len = path[offset + 2] + path[offset + 3] * 256;
        if node_len >= 4 && offset + node_len <= path.len() {
            lemma_end_node_fits(path, offset + node_len);
        }
    }
}

/// The length in bytes of a device path, its end node included; `None`
/// where `end_node_offset` finds no end node.
pub open spec fn device_path_len(path: Seq<u8>) -> Option<usize> {
    match end_node_offset(path) {
        Some(n) => Some((n + path[n + 2] + path[n + 3] * 256) as usize),
        None => None,
    }
}

/// The length in bytes of the device path at the start of `path`.
pub fn device_path_byte_len(path: &[u8]) -> (r: Option<usize>)
    ensures
        r == device_path_len(path@),
        r matches Some(n) ==> n <= path@.len(),
{
    if path.len() < 4 {
        return None;
    }
    proof {
        lemma_end_node_fits(path@, 0);
    }
    match parent_without_end_len(path) {
        Some(n) => {
            assert(end_node_offset_from(path@, 0) == Some(n));
            let node_len = path[n + 2] as usize + path[n + 3] as usize * 256;
            Some(n + node_len)
        },
        None => None,
    }
}

/// `child` starts with `parent`'s nodes (without its end node, or all of
/// `parent` when its end node is not found).
pub open spec fn child_device_path(parent: Seq<u8>, child: Seq<u8>) -> bool {
    let n: int = match end_node_offset(parent) {
        Some(n) => n as int,
        None => parent.len() as int,
    };
    child.len() >= n && child.take(n) == parent.take(n)
}

/// Whether the device path `child` lies below the device path `parent`.
pub fn is_child_device_path(parent: &[u8], child: &[u8]) -> (r: bool)
    ensures
        r == child_device_path(parent@, child@),
{
    let n = match parent_without_end_len(parent) {
        Some(n) => n,
        None => parent.len(),
    };
    if child.len() < n {
        return false;
    }
    let mut i: usize = 0;
    while i < n
        invariant
            i <= n,
            n <= parent@.len(),
            n <= child@.len(),
            n as int == (match end_node_offset(parent@) {
                Some(m) => m as int,
                None => parent@.len() as int,
            }),
            forall|j: int| 0 <= j < i ==> child@[j] == parent@[j],
        decreases n - i,
    {
        if child[i] != parent[i] {
            assert(child@.take(n as int)[i as int] != parent@.take(n as int)[i as int]);
            return false;
        }
        i += 1;
    }
    assert(child@.take(n as int) =~= parent@.take(n as int));
    true
}

/// `align` is a power of two.
pub open spec fn power_of_two(align: usize) -> bool {
    exists|k: nat| k < usize::BITS && align == vstd::arithmetic::power2::pow2(k)
}

/// The smallest multiple of `align` that is at least `value`; `None` when it
/// does not fit in a `usize`.
pub open spec fn aligned_up(value: usize, align: usize) -> Option<usize> {
    if value + align - 1 > usize::MAX {
        None
    } else {
        Some((((value + align - 1) / (align as int)) * align) as usize)
    }
}

/// Rounds `value` up to a multiple of the power of two `align`.
pub fn align_up(value: usize, align: usize) -> (r: Option<usize>)
    requires
        power_of_two(align),
    ensures
        r == aligned_up(value, align),
        r matches Some(v) ==> v % align == 0 && value <= v < value + align,
{
    let ghost k = choose|k: nat| k < usize::BITS && align == vstd::arithmetic::power2::pow2(k);
    proof {
        vstd::arithmetic::power2::lemma_pow2_pos(k);
    }
    match value.checked_add(align - 1) {
        Some(v) => {
            let mask = align - 1;
            let r = v & !mask;
            proof {
                vstd::bits::lemma_usize_low_bits_mask_is_mod(v, k);
                assert(mask == vstd::bits::low_bits_mask(k) as usize);
                assert(v & mask == v % align);
                assert(r == v - (v & mask)) by (bit_vector)
                    requires
                        r == v & !mask,
                ;
            }
            assert(v - v % align == (v / align) * align) by (nonlinear_arith)
                requires
                    align > 0,
            ;
            assert(((v / align) * align) % (align as int) == 0 && value <= (v / align) * align < value + align)
                by (nonlinear_arith)
                requires
                    align > 0,
                    v == value + align - 1,
            ;
            Some(r)
        },
        None => None,
    }
}

/// `value / divisor` rounded up; `None` for a zero divisor or when
/// `value + divisor - 1` does not fit.
pub open spec fn div_rounded_up(value: u64, divisor: u64) -> Option<u64> {
    if divisor == 0 || value + divisor - 1 > u64::MAX {
        None
    } else {
        Some(((value + divisor - 1) / (divisor as int)) as u64)
    }
}

/// Divides, rounding up.
pub fn div_round_up(value: u64, divisor: u64) -> (r: Option<u64>)
    ensures
        r == div_rounded_up(value, divisor),
{
    if divisor == 0 {
        return None;
    }
    match value.checked_add(divisor - 1) {
        Some(v) => Some(v / divisor),
        None => None,
    }
}

/// `value` if it is a multiple of `align`, else the next multiple; `None`
/// for a zero `align` or when that multiple does not fit.
pub open spec fn aligned_up_u64(value: u64, align: u64) -> Option<u64> {
    if align == 0 {
        None
    } else if value % align == 0 {
        Some(value)
    } else if value + (align - value % align) > u64::MAX {
        None
    } else {
        Some((value + (align - value % align)) as u64)
    }
}

/// Rounds `value` up to a multiple of `align`.
pub fn align_up_u64(value: u64, align: u64) -> (r: Option<u64>)
    ensures
        r == aligned_up_u64(value, align),
        r matches Some(v) ==> v % align == 0 && value <= v && v - value < align,
{
    if align == 0 {
        return None;
    }
    let remainder = value % align;
    if remainder == 0 {
        Some(value)
    } else {
        match value.checked_add(align - remainder) {
            Some(v) => {
                assert(v % align == 0) by (nonlinear_arith)
                    requires
                        v == value + (align - value % align),
                        align > 0,
                ;
                Some(v)
            },
            None => None,
        }
    }
}

/// The number a booted system sees for each OS family.
pub open spec fn os_code(os_type: OsType) -> u32 {
    match os_type {
        OsType::Unknown => 0,
        OsType::Windows => 1,
        OsType::WinPE => 2,
        OsType::Linux => 10,
        OsType::Ubuntu => 11,
        OsType::Debian => 12,
        OsType::Fedora => 13,
        OsType::Arch => 14,
    }
}

/// The number recorded for an OS family.
pub fn os_type_code(os_type: OsType) -> (r: u32)
    ensures
        r == os_code(os_type),
{
    match os_type {
        OsType::Unknown => 0,
        OsType::Windows => 1,
        OsType::WinPE => 2,
        OsType::Linux => 10,
        OsType::Ubuntu => 11,
        OsType::Debian => 12,
        OsType::Fedora => 13,
        OsType::Arch => 14,
    }
}

/// Appends an extent record: virtual start block, physical LBA and block
/// count, each little-endian.
pub fn push_extent_record(data: &mut Vec<u8>, virtual_block_start: u64, physical_lba: u64, block_count: u64)
    ensures
        final(data)@ == old(data)@ + le_u64_bytes(virtual_block_start) + le_u64_bytes(physical_lba) + le_u64_bytes(
            block_count,
        ),
{
    push_u64(data, virtual_block_start);
    push_u64(data, physical_lba);
    push_u64(data, block_count);
    assert(data@ =~= old(data)@ + le_u64_bytes(virtual_block_start) + le_u64_bytes(physical_lba) + le_u64_bytes(
        block_count,
    ));
}

} // verus!
