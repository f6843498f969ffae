//! Keys of the files served to a booted loader through the load-file
//! protocols.

use super::util::{iso_path, normalize_iso_path};
use crate::text::{char_from_u32, chars_of, lower_seq, push_char, string_from_chars, to_ascii_lower};
use vstd::prelude::*;
use vstd::utf8::is_scalar;

verus! {

/// The key a file is served under: its canonical ISO path, ASCII-lowercased.
pub open spec fn load_file_key(path: Seq<char>) -> Seq<char> {
    lower_seq(iso_path(path))
}

/// The key a loader's request for `path` is looked up under.
pub fn normalize_load_file_key(path: &str) -> (r: String)
    ensures
        r@ == load_file_key(path@),
{
    let normalized = normalize_iso_path(path);
    let chars = chars_of(normalized.as_str());
    let mut lower: Vec<char> = Vec::new();
    let mut i: usize = 0;
    while i < chars.len()
        invariant
            i <= chars@.len(),
            lower@ == lower_seq(chars@.take(i as int)),
        decreases chars@.len() - i,
    {
        lower.push(to_ascii_lower(chars[i]));
        i += 1;
        assert(lower@ =~= lower_seq(chars@.take(i as int)));
    }
    assert(chars@.take(i as int) =~= chars@);
    string_from_chars(lower.as_slice())
}

/// The character a path unit of a file-path node stands for: the unit
/// itself, with `\\` turned into `/`, or U+FFFD for a lone surrogate.
pub open spec fn unit_char(unit: u16) -> char {
    if is_scalar(unit as u32) {
        if (unit as u32) as char == '\\' {
            '/'
        } else {
            (unit as u32) as char
        }
    } else {
        '\u{fffd}'
    }
}

/// The text of the `units` UTF-16 units at `start`, up to the first zero
/// unit.
pub open spec fn node_text(p: Seq<u8>, start: int, units: int) -> Seq<char>
    decreases units,
{
    if units <= 0 {
        seq![]
    } else {
        let unit = p[start] + p[start + 1] * 256;
        if unit == 0 {
            seq![]
        } else {
            seq![unit_char(unit as u16)] + node_text(p, start + 2, units - 1)
        }
    }
}

/// The text of the file-path nodes among the first `nodes` nodes from
/// `offset` on, up to an end node; `None` when a node is shorter than its
/// header or lies past the end of `p`.
pub open spec fn file_path_text(p: Seq<u8>, offset: int, nodes: nat) -> Option<Seq<char>>
    decreases nodes,
{
    if nodes == 0 {
        Some(seq![])
    } else if offset < 0 || offset + 4 > p.len() {
        None
    } else {
        let len = p[offset + 2] + p[offset + 3] * 256;
        if len < 4 {
            None
        } else if p[offset] == 0x7f {
            Some(seq![])
        } else if offset + len > p.len() {
            None
        } else {
            let here = if p[offset] == 0x04 && p[offset + 1] == 0x04 {
                node_text(p, offset + 4, (len - 4) / 2)
            } else {
                seq![]
            };
            match file_path_text(p, offset + len, (nodes - 1) as nat) {
                Some(rest) => Some(here + rest),
                None => None,
            }
        }
    }
}

/// The load-file key of the path that a loader asks for through a device
/// path: the text of its file-path nodes among the first 64 nodes.
pub open spec fn device_path_file_key(p: Seq<u8>) -> Option<Seq<char>> {
    match file_path_text(p, 0, 64) {
        Some(text) => if text.len() == 0 {
            None
        } else {
            Some(load_file_key(text))
        },
        None => None,
    }
}

/// Appends the text of the `units` path units at `start` to `out`.
fn push_node_text(p: &[u8], start: usize, units: usize, out: &mut String)
    requires
        start + 2 * units <= p@.len() <= usize::MAX,
    ensures
        final(out)@ == old(out)@ + node_text(p@, start as int, units as int),
{
    let mut i: usize = 0;
    while i < units
        invariant
            i <= units,
            start + 2 * units <= p@.len() <= usize::MAX,
            old(out)@ + node_text(p@, start as int, units as int) == out@ + node_text(
                p@,
                start + 2 * i,
                units - i,
            ),
        decreases units - i,
    {
        let at = start + 2 * i;
        let unit = p[at] as u32 + p[at + 1] as u32 * 256;
        if unit == 0 {
            return;
        }
        let c = match char_from_u32(unit) {
            Some(c) => if c == '\\' {
                '/'
            } else {
                c
            },
            None => '\u{fffd}',
        };
        proof {
            assert(unit as u16 as u32 == unit);
            assert(c == unit_char(unit as u16));
        }
        let ghost before = out@;
        push_char(out, c);
        i += 1;
        assert(before + node_text(p@, start + 2 * (i - 1), units - (i - 1)) =~= out@ + node_text(
            p@,
            start + 2 * i,
            units - i,
        ));
    }
    assert(out@ + node_text(p@, start + 2 * i, units - i) =~= out@);
}

/// The key of the file that a loader asks for through the device path at
/// the start of `device_path`: its file-path nodes (type 4, subtype 4) among
/// the first 64 nodes, joined, with `\\` read as `/`; `None` when they hold
/// no text or a node is malformed.
pub fn load_file_path_from_device_path(device_path: &[u8]) -> (r: Option<String>)
    ensures
        r matches Some(key) ==> device_path_file_key(device_path@) == Some(key@),
        r is None ==> device_path_file_key(device_path@) is None,
{
    let p = device_path;
    let mut path = String::new();
    let mut offset: usize = 0;
    let mut node: usize = 0;
    while node < 64
        invariant
            p@ == device_path@,
            node <= 64,
            offset <= p@.len(),
            file_path_text(p@, 0, 64) == (match file_path_text(p@, offset as int, (64 - node) as nat) {
                Some(rest) => Some(path@ + rest),
                None => None::<Seq<char>>,
            }),
        ensures
            file_path_text(p@, 0, 64) == Some(path@),
        decreases 64 - node,
    {
        let ghost k = (64 - node) as nat;
        if p.len() - offset < 4 {
            assert(file_path_text(p@, offset as int, k) is None);
            return None;
        }
        let length = p[offset + 2] as usize + p[offset + 3] as usize * 256;
        if length < 4 {
            assert(file_path_text(p@, offset as int, k) is None);
            return None;
        }
        if p[offset] == 0x7f {
            assert(file_path_text(p@, offset as int, k) == Some(Seq::<char>::empty()));
            assert(path@ + Seq::<char>::empty() =~= path@);
            break;
        }
        if length > p.len() - offset {
            assert(file_path_text(p@, offset as int, k) is None);
            return None;
        }
        let ghost before = path@;
        if p[offset] == 0x04 && p[offset + 1] == 0x04 {
            push_node_text(p, offset + 4, (length - 4) / 2, &mut path);
        }
        proof {
            let here = if p@[offset as int] == 0x04 && p@[offset + 1] == 0x04 {
                node_text(p@, offset + 4, (length - 4) / 2)
            } else {
                seq![]
            };
            assert(path@ == before + here);
            assert(file_path_text(p@, offset as int, k) == (match file_path_text(
                p@,
                offset + length,
                (k - 1) as nat,
            ) {
                Some(rest) => Some(here + rest),
                None => None::<Seq<char>>,
            }));
            match file_path_text(p@, offset + length, (k - 1) as nat) {
                Some(rest) => {
                    assert(before + (here + rest) =~= path@ + rest);
                },
                None => {},
            }
        }
        offset = offset + length;
        node += 1;
    }
    proof {
        if node == 64 {
            assert(path@ + Seq::<char>::empty() =~= path@);
        }
    }
    if path.as_str().is_empty() {
        return None;
    }
    Some(normalize_load_file_key(path.as_str()))
}

/// The device path under which the initrd is offered to a Linux kernel: a
/// vendor media node with the Linux initrd-media GUID, then an end node.
pub open spec fn initrd_media_device_path() -> Seq<u8> {
    seq![
        0x04u8, 0x03, 20, 0,
        0x27, 0xe4, 0x68, 0x55, 0xfc, 0x68, 0x3d, 0x4f,
        0xac, 0x74, 0xca, 0x55, 0x52, 0x31, 0xcc, 0x68,
        0x7f, 0xff, 0x04, 0x00,
    ]
}

/// The bytes of the device path under which the initrd is offered to a
/// Linux kernel.
pub fn linux_initrd_media_device_path_bytes() -> (r: Vec<u8>)
    ensures
        r@ == initrd_media_device_path(),
{
    let data: Vec<u8> = vec![
        0x04u8, 0x03, 20, 0,
        0x27, 0xe4, 0x68, 0x55, 0xfc, 0x68, 0x3d, 0x4f,
        0xac, 0x74, 0xca, 0x55, 0x52, 0x31, 0xcc, 0x68,
        0x7f, 0xff, 0x04, 0x00,
    ];
    data
}

/// A file held in memory and served to a booted loader on request.
pub struct PreloadedFile {
    /// The key it is served under (see `normalize_load_file_key`).
    pub path: String,
    pub data: Vec<u8>,
}

/// The index of the first entry served under `key`.
pub open spec fn first_entry_with(entries: Seq<PreloadedFile>, key: Seq<char>) -> Option<usize> {
    if exists|i: int| 0 <= i < entries.len() && (#[trigger] entries[i]).path@ == key {
        let i = choose|i: int|
            0 <= i < entries.len() && (#[trigger] entries[i]).path@ == key && forall|j: int|
                0 <= j < i ==> (#[trigger] entries[j]).path@ != key;
        Some(i as usize)
    } else {
        None
    }
}

proof fn lemma_first_entry_with(entries: Seq<PreloadedFile>, key: Seq<char>, i: int)
    requires
        0 <= i < entries.len(),
        entries[i].path@ == key,
        forall|j: int| 0 <= j < i ==> (#[trigger] entries[j]).path@ != key,
    ensures
        first_entry_with(entries, key) == Some(i as usize),
{
    let c = choose|c: int|
        0 <= c < entries.len() && (#[trigger] entries[c]).path@ == key && forall|j: int|
            0 <= j < c ==> (#[trigger] entries[j]).path@ != key;
    assert(0 <= c < entries.len() && entries[c].path@ == key && forall|j: int|
        0 <= j < c ==> (#[trigger] entries[j]).path@ != key);
    if c < i {
        assert(entries[c].path@ != key);
    }
    if i < c {
        assert(entries[i].path@ != key);
    }
}

/// Finds the first entry served under `key`.
pub fn find_entry(entries: &[PreloadedFile], key: &String) -> (r: Option<usize>)
    ensures
        r == first_entry_with(entries@, key@),
        r matches Some(i) ==> i < entries@.len(),
{
    let mut i: usize = 0;
    while i < entries.len()
        invariant
            i <= entries@.len(),
            forall|j: int| 0 <= j < i ==> (#[trigger] entries@[j]).path@ != key@,
        decreases entries@.len() - i,
    {
        if entries[i].path == *key {
            proof {
                lemma_first_entry_with(entries@, key@, i as int);
            }
            return Some(i);
        }
        i += 1;
    }
    None
}

/// The answer to a load-file request.
#[derive(Debug, Clone, Copy, PartialEq, Eq, Structural)]
pub enum LoadFileReply {
    /// No file is served for the request.
    NotFound,
    /// The caller's buffer is missing or too small; `required` bytes are
    /// needed, and that size is written back to the caller.
    BufferTooSmall { entry: usize, required: usize },
    /// The `size` bytes of the entry are copied into the caller's buffer, and
    /// that size is written back to the caller.
    Serve { entry: usize, size: usize },
}

/// The answer for an entry of `required` bytes to a caller that offers a
/// buffer of `provided` bytes (or none).
pub open spec fn sized_reply(entry: usize, required: usize, provided: usize, buffer_present: bool) -> LoadFileReply {
    if !buffer_present || provided < required {
        LoadFileReply::BufferTooSmall { entry, required }
    } else {
        LoadFileReply::Serve { entry, size: required }
    }
}

/// The entry a request is served from: the one under the requested key,
/// or, when none is and the firmware asks under its boot policy, the first.
pub open spec fn requested_entry(entries: Seq<PreloadedFile>, device_path: Seq<u8>, boot_policy: bool) -> Option<usize> {
    let found = match device_path_file_key(device_path) {
        Some(key) => first_entry_with(entries, key),
        None => None,
    };
    match found {
        Some(i) => Some(i),
        None => if boot_policy && entries.len() > 0 {
            Some(0usize)
        } else {
            None
        },
    }
}

/// The answer of the preloaded-files load-file protocol to a request for
/// the file at `device_path`.
pub open spec fn preloaded_reply(
    entries: Seq<PreloadedFile>,
    device_path: Seq<u8>,
    boot_policy: bool,
    provided: usize,
    buffer_present: bool,
) -> LoadFileReply {
    match requested_entry(entries, device_path, boot_policy) {
        Some(i) => sized_reply(i, entries[i as int].data@.len() as usize, provided, buffer_present),
        None => LoadFileReply::NotFound,
    }
}

/// Answers a request of the preloaded-files load-file protocol: the caller
/// asks for the file at `device_path` (empty when it gave none) and offers a
/// buffer of `provided` bytes, or none.
pub fn preloaded_load_file(
    entries: &[PreloadedFile],
    device_path: &[u8],
    boot_policy: bool,
    provided: usize,
    buffer_present: bool,
) -> (r: LoadFileReply)
    ensures
        r == preloaded_reply(entries@, device_path@, boot_policy, provided, buffer_present),
        r matches LoadFileReply::Serve { entry, size } ==> entry < entries@.len() && size
            == entries@[entry as int].data@.len() && size <= provided,
{
    let requested = load_file_path_from_device_path(device_path);
    let found = match &requested {
        Some(key) => find_entry(entries, key),
        None => None,
    };
    let entry = match found {
        Some(i) => i,
        None => {
            if boot_policy && entries.len() > 0 {
                0
            } else {
                return LoadFileReply::NotFound;
            }
        },
    };
    let required = entries[entry].data.len();
    if !buffer_present || provided < required {
        LoadFileReply::BufferTooSmall { entry, required }
    } else {
        LoadFileReply::Serve { entry, size: required }
    }
}

/// Answers a request of the Linux initrd load-file protocol, which serves
/// one file of `data_len` bytes whatever path is asked for.
pub fn initrd_load_file(data_len: usize, provided: usize, buffer_present: bool) -> (r: LoadFileReply)
    ensures
        r == sized_reply(0, data_len, provided, buffer_present),
{
    if !buffer_present || provided < data_len {
        LoadFileReply::BufferTooSmall { entry: 0, required: data_len }
    } else {
        LoadFileReply::Serve { entry: 0, size: data_len }
    }
}

} // verus!
