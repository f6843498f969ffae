//! Files served to wimboot while Windows starts: which bytes of the source
//! volume a read of such a file takes, and the answers of the callbacks.
//!
//! A read is planned before any block is read: the plan lists the runs of
//! source-volume bytes in the order they fill the caller's buffer, and each
//! run is read block by block through a scratch block.

use super::BootError;
use crate::scanner::block_devices::bytes_equal;
use crate::scanner::model::IsoExtent;
use vstd::prelude::*;
use vstd::utf8::encode_utf8;

verus! {

/// The longest path, terminator excluded, that a callback accepts.
pub const WIMBOOT_MAX_CALLBACK_PATH: usize = 512;

/// A run of a file kept as raw bytes of the source volume: `byte_count`
/// bytes of the file from `virtual_offset` on are the bytes of the volume
/// from `physical_offset` on.
#[derive(Debug, Clone, Copy, PartialEq, Eq, Structural)]
pub struct WimbootMappedSegment {
    pub virtual_offset: u64,
    pub physical_offset: u64,
    pub byte_count: u64,
}

/// A piece of a read: `len` bytes taken from volume byte `physical_byte` on.
#[derive(Debug, Clone, Copy, PartialEq, Eq, Structural)]
pub struct ReadPiece {
    pub physical_byte: u64,
    pub len: usize,
}

/// The total length of the pieces.
pub open spec fn pieces_len(pieces: Seq<ReadPiece>) -> int
    decreases pieces.len(),
{
    if pieces.len() == 0 {
        0
    } else {
        pieces[0].len + pieces_len(pieces.drop_first())
    }
}

/// `piece` in front of what `rest` gives.
pub open spec fn prepend_piece(piece: ReadPiece, rest: Option<Seq<ReadPiece>>) -> Option<Seq<ReadPiece>> {
    match rest {
        Some(s) => Some(seq![piece] + s),
        None => None,
    }
}

/// The first segment from `i` on that holds file byte `cursor`; a segment
/// whose end does not fit in 64 bits holds nothing.
pub open spec fn segment_holding(segments: Seq<WimbootMappedSegment>, cursor: int, i: int) -> Option<int>
    decreases segments.len() - i,
{
    if i < 0 || i >= segments.len() {
        None
    } else {
        let s = segments[i];
        if s.virtual_offset + s.byte_count <= u64::MAX && s.virtual_offset <= cursor < s.virtual_offset
            + s.byte_count {
            Some(i)
        } else {
            segment_holding(segments, cursor, i + 1)
        }
    }
}

/// The pieces that read file bytes `[cursor, end)` of a file kept as mapped
/// segments: each runs to the end of the read or of the first segment
/// holding its start, whichever comes first. `None` when a byte is in no
/// segment or a volume offset does not fit in 64 bits.
pub open spec fn mapped_pieces_from(segments: Seq<WimbootMappedSegment>, end: int, cursor: int) -> Option<
    Seq<ReadPiece>,
>
    decreases end - cursor,
{
    if cursor >= end {
        Some(seq![])
    } else {
        match segment_holding(segments, cursor, 0) {
            None => None,
            Some(k) => {
                let s = segments[k];
                let seg_end = s.virtual_offset + s.byte_count;
                let read_end = if end < seg_end { end } else { seg_end };
                let physical = s.physical_offset + (cursor - s.virtual_offset);
                if physical > u64::MAX || read_end <= cursor {
                    None
                } else {
                    prepend_piece(
                        ReadPiece { physical_byte: physical as u64, len: (read_end - cursor) as usize },
                        mapped_pieces_from(segments, end, read_end),
                    )
                }
            },
        }
    }
}

/// The pieces of a read of `len` bytes at `offset` of a file kept as mapped
/// segments.
pub open spec fn mapped_read(segments: Seq<WimbootMappedSegment>, offset: u64, len: usize) -> Option<Seq<ReadPiece>> {
    if offset + len > u64::MAX {
        None
    } else {
        mapped_pieces_from(segments, offset + len, offset as int)
    }
}

proof fn lemma_segment_holding(segments: Seq<WimbootMappedSegment>, cursor: int, i: int)
    ensures
        segment_holding(segments, cursor, i) matches Some(k) ==> {
            &&& 0 <= k < segments.len()
            &&& segments[k].virtual_offset + segments[k].byte_count <= u64::MAX
            &&& segments[k].virtual_offset <= cursor < segments[k].virtual_offset + segments[k].byte_count
        },
    decreases segments.len() - i,
{
    if 0 <= i < segments.len() {
        lemma_segment_holding(segments, cursor, i + 1);
    }
}

fn find_segment(segments: &[WimbootMappedSegment], cursor: u64) -> (r: Option<usize>)
    ensures
        r == (match segment_holding(segments@, cursor as int, 0) {
            Some(k) => Some(k as usize),
            None => None::<usize>,
        }),
        r matches Some(k) ==> k < segments@.len(),
{
    proof {
        lemma_segment_holding(segments@, cursor as int, 0);
    }
    let mut i: usize = 0;
    while i < segments.len()
        invariant
            i <= segments@.len(),
            segment_holding(segments@, cursor as int, 0) == segment_holding(segments@, cursor as int, i as int),
        decreases segments@.len() - i,
    {
        let s = segments[i];
        match s.virtual_offset.checked_add(s.byte_count) {
            Some(seg_end) => {
                if cursor >= s.virtual_offset && cursor < seg_end {
                    return Some(i);
                }
            },
            None => {},
        }
        i += 1;
    }
    None
}

/// Plans a read of `len` bytes at `offset` of a file kept as mapped segments
/// of the source volume. The pieces, in order, make up exactly `len` bytes.
pub fn mapped_read_plan(segments: &[WimbootMappedSegment], offset: u64, len: usize) -> (r: Option<Vec<ReadPiece>>)
    ensures
        r matches Some(p) ==> mapped_read(segments@, offset, len) == Some(p@) && pieces_len(p@) == len,
        r is None ==> mapped_read(segments@, offset, len) is None,
{
    let end = match offset.checked_add(len as u64) {
        Some(e) => e,
        None => return None,
    };
    let mut pieces: Vec<ReadPiece> = Vec::new();
    let mut cursor = offset;
    let ghost whole = mapped_read(segments@, offset, len);
    while cursor < end
        invariant
            offset <= cursor <= end,
            end == offset + len,
            whole == mapped_read(segments@, offset, len),
            whole == (match mapped_pieces_from(segments@, end as int, cursor as int) {
                Some(rest) => Some(pieces@ + rest),
                None => None::<Seq<ReadPiece>>,
            }),
            pieces_len(pieces@) == cursor - offset,
        decreases end - cursor,
    {
        let k = match find_segment(segments, cursor) {
            Some(k) => k,
            None => return None,
        };
        proof {
            lemma_segment_holding(segments@, cursor as int, 0);
        }
        let s = segments[k];
        let seg_end = s.virtual_offset + s.byte_count;
        let read_end = if end < seg_end { end } else { seg_end };
        let physical = match s.physical_offset.checked_add(cursor - s.virtual_offset) {
            Some(p) => p,
            None => return None,
        };
        let piece = ReadPiece { physical_byte: physical, len: (read_end - cursor) as usize };
        proof {
            let rest = mapped_pieces_from(segments@, end as int, read_end as int);
            match rest {
                Some(r) => {
                    assert(pieces@ + (seq![piece] + r) =~= pieces@.push(piece) + r);
                },
                None => {},
            }
            lemma_pieces_len_push(pieces@, piece);
        }
        pieces.push(piece);
        cursor = read_end;
    }
    proof {
        assert(pieces@ + Seq::<ReadPiece>::empty() =~= pieces@);
    }
    Some(pieces)
}

proof fn lemma_pieces_len_push(pieces: Seq<ReadPiece>, piece: ReadPiece)
    ensures
        pieces_len(pieces.push(piece)) == pieces_len(pieces) + piece.len,
    decreases pieces.len(),
{
    if pieces.len() > 0 {
        assert(pieces.push(piece).drop_first() =~= pieces.drop_first().push(piece));
        lemma_pieces_len_push(pieces.drop_first(), piece);
    } else {
        assert(pieces.push(piece).drop_first() =~= Seq::<ReadPiece>::empty());
        assert(pieces_len(Seq::<ReadPiece>::empty()) == 0);
    }
}

/// The file bytes `[start, end)` that an extent of `block_size`-byte blocks
/// holds, when they fit in 64 bits.
pub open spec fn extent_bytes(e: IsoExtent, block_size: u32) -> Option<(int, int)> {
    let start = e.virtual_block_start * block_size;
    let len = e.block_count * block_size;
    if start > u64::MAX || len > u64::MAX || start + len > u64::MAX {
        None
    } else {
        Some((start, start + len))
    }
}

/// The first extent from `i` on that holds file byte `cursor`; an extent
/// whose bytes do not fit in 64 bits holds nothing.
pub open spec fn extent_holding(extents: Seq<IsoExtent>, block_size: u32, cursor: int, i: int) -> Option<int>
    decreases extents.len() - i,
{
    if i < 0 || i >= extents.len() {
        None
    } else {
        match extent_bytes(extents[i], block_size) {
            Some(span) if span.0 <= cursor < span.1 => Some(i),
            _ => extent_holding(extents, block_size, cursor, i + 1),
        }
    }
}

/// The pieces that read file bytes `[cursor, end)` of a file kept as extents
/// of the source volume: each runs to the end of the read or of the first
/// extent holding its start, whichever comes first. `None` when a byte is in
/// no extent or a volume offset does not fit in 64 bits.
pub open spec fn extent_pieces_from(extents: Seq<IsoExtent>, block_size: u32, end: int, cursor: int) -> Option<
    Seq<ReadPiece>,
>
    decreases end - cursor,
{
    if cursor >= end {
        Some(seq![])
    } else {
        match extent_holding(extents, block_size, cursor, 0) {
            None => None,
            Some(k) => {
                let span = extent_bytes(extents[k], block_size)->Some_0;
                let read_end = if end < span.1 { end } else { span.1 };
                let base = extents[k].physical_lba * block_size;
                let physical = base + (cursor - span.0);
                if base > u64::MAX || physical > u64::MAX || read_end <= cursor {
                    None
                } else {
                    prepend_piece(
                        ReadPiece { physical_byte: physical as u64, len: (read_end - cursor) as usize },
                        extent_pieces_from(extents, block_size, end, read_end),
                    )
                }
            },
        }
    }
}

/// The pieces of a read of `len` bytes at `offset` of a file kept as extents.
pub open spec fn extent_read(extents: Seq<IsoExtent>, block_size: u32, offset: u64, len: usize) -> Option<
    Seq<ReadPiece>,
> {
    if offset + len > u64::MAX {
        None
    } else {
        extent_pieces_from(extents, block_size, offset + len, offset as int)
    }
}

proof fn lemma_extent_holding(extents: Seq<IsoExtent>, block_size: u32, cursor: int, i: int)
    ensures
        extent_holding(extents, block_size, cursor, i) matches Some(k) ==> {
            &&& 0 <= k < extents.len()
            &&& extent_bytes(extents[k], block_size) matches Some(span) && span.0 <= cursor < span.1
        },
    decreases extents.len() - i,
{
    if 0 <= i < extents.len() {
        lemma_extent_holding(extents, block_size, cursor, i + 1);
    }
}

fn extent_span_of(e: IsoExtent, block_size: u32) -> (r: Option<(u64, u64)>)
    ensures
        r matches Some(span) ==> extent_bytes(e, block_size) == Some((span.0 as int, span.1 as int)),
        r is None ==> extent_bytes(e, block_size) is None,
{
    let bs = block_size as u64;
    let start = match e.virtual_block_start.checked_mul(bs) {
        Some(v) => v,
        None => return None,
    };
    let len = match e.block_count.checked_mul(bs) {
        Some(v) => v,
        None => return None,
    };
    match start.checked_add(len) {
        Some(end) => Some((start, end)),
        None => None,
    }
}

fn find_extent(extents: &[IsoExtent], block_size: u32, cursor: u64) -> (r: Option<usize>)
    ensures
        r == (match extent_holding(extents@, block_size, cursor as int, 0) {
            Some(k) => Some(k as usize),
            None => None::<usize>,
        }),
        r matches Some(k) ==> k < extents@.len(),
{
    proof {
        lemma_extent_holding(extents@, block_size, cursor as int, 0);
    }
    let mut i: usize = 0;
    while i < extents.len()
        invariant
            i <= extents@.len(),
            extent_holding(extents@, block_size, cursor as int, 0) == extent_holding(
                extents@,
                block_size,
                cursor as int,
                i as int,
            ),
        decreases extents@.len() - i,
    {
        match extent_span_of(extents[i], block_size) {
            Some((start, end)) => {
                if cursor >= start && cursor < end {
                    return Some(i);
                }
            },
            None => {},
        }
        i += 1;
    }
    None
}

/// Plans a read of `len` bytes at `offset` of a file kept as extents of
/// `block_size`-byte blocks of the source volume. The pieces, in order, make
/// up exactly `len` bytes.
pub fn extent_read_plan(block_size: u32, extents: &[IsoExtent], offset: u64, len: usize) -> (r: Option<
    Vec<ReadPiece>,
>)
    ensures
        r matches Some(p) ==> extent_read(extents@, block_size, offset, len) == Some(p@) && pieces_len(p@) == len,
        r is None ==> extent_read(extents@, block_size, offset, len) is None,
{
    let end = match offset.checked_add(len as u64) {
        Some(e) => e,
        None => return None,
    };
    let mut pieces: Vec<ReadPiece> = Vec::new();
    let mut cursor = offset;
    let ghost whole = extent_read(extents@, block_size, offset, len);
    while cursor < end
        invariant
            offset <= cursor <= end,
            end == offset + len,
            whole == extent_read(extents@, block_size, offset, len),
            whole == (match extent_pieces_from(extents@, block_size, end as int, cursor as int) {
                Some(rest) => Some(pieces@ + rest),
                None => None::<Seq<ReadPiece>>,
            }),
            pieces_len(pieces@) == cursor - offset,
        decreases end - cursor,
    {
        let k = match find_extent(extents, block_size, cursor) {
            Some(k) => k,
            None => return None,
        };
        proof {
            lemma_extent_holding(extents@, block_size, cursor as int, 0);
        }
        let e = extents[k];
        let (start, extent_end) = match extent_span_of(e, block_size) {
            Some(span) => span,
            None => return None,
        };
        let read_end = if end < extent_end { end } else { extent_end };
        let base = match e.physical_lba.checked_mul(block_size as u64) {
            Some(b) => b,
            None => return None,
        };
        let physical = match base.checked_add(cursor - start) {
            Some(p) => p,
            None => return None,
        };
        let piece = ReadPiece { physical_byte: physical, len: (read_end - cursor) as usize };
        proof {
            let rest = extent_pieces_from(extents@, block_size, end as int, read_end as int);
            match rest {
                Some(r) => {
                    assert(pieces@ + (seq![piece] + r) =~= pieces@.push(piece) + r);
                },
                None => {},
            }
            lemma_pieces_len_push(pieces@, piece);
        }
        pieces.push(piece);
        cursor = read_end;
    }
    proof {
        assert(pieces@ + Seq::<ReadPiece>::empty() =~= pieces@);
    }
    Some(pieces)
}

/// A piece of a block read: `len` bytes copied from byte `offset` of block
/// `lba`.
#[derive(Debug, Clone, Copy, PartialEq, Eq, Structural)]
pub struct BlockPiece {
    pub lba: u64,
    pub offset: usize,
    pub len: usize,
}

/// The block pieces that read `remaining` bytes from volume byte `position`
/// on: each takes the rest of its block, or what is left to read.
pub open spec fn block_pieces_from(block_size: int, position: int, remaining: int) -> Option<Seq<BlockPiece>>
    decreases remaining,
{
    if remaining <= 0 || block_size <= 0 {
        Some(seq![])
    } else {
        let offset = position % block_size;
        let len = if block_size - offset < remaining { block_size - offset } else { remaining };
        if position + len > u64::MAX {
            None
        } else {
            match block_pieces_from(block_size, position + len, remaining - len) {
                Some(rest) => Some(
                    seq![BlockPiece { lba: (position / block_size) as u64, offset: offset as usize, len: len as usize }]
                        + rest,
                ),
                None => None,
            }
        }
    }
}

/// Splits a read of `len` volume bytes from `physical_byte` on into reads of
/// whole blocks, each copying part of its block; `None` for a zero block
/// size or when the bytes run past 64 bits.
pub fn physical_read_pieces(block_size: u32, physical_byte: u64, len: usize) -> (r: Option<Vec<BlockPiece>>)
    ensures
        r matches Some(p) ==> block_size > 0 && block_pieces_from(block_size as int, physical_byte as int, len as int)
            == Some(p@),
        r is None ==> block_size == 0 || block_pieces_from(block_size as int, physical_byte as int, len as int) is None,
        r matches Some(p) ==> forall|i: int|
            0 <= i < p@.len() ==> (#[trigger] p@[i]).offset + p@[i].len <= block_size,
{
    if block_size == 0 {
        return None;
    }
    let bs = block_size as usize;
    let mut pieces: Vec<BlockPiece> = Vec::new();
    let mut position = physical_byte;
    let mut copied: usize = 0;
    let ghost whole = block_pieces_from(block_size as int, physical_byte as int, len as int);
    while copied < len
        invariant
            bs == block_size as usize,
            block_size > 0,
            copied <= len,
            position == physical_byte + copied,
            whole == block_pieces_from(block_size as int, physical_byte as int, len as int),
            whole == (match block_pieces_from(block_size as int, position as int, len - copied) {
                Some(rest) => Some(pieces@ + rest),
                None => None::<Seq<BlockPiece>>,
            }),
            forall|i: int| 0 <= i < pieces@.len() ==> (#[trigger] pieces@[i]).offset + pieces@[i].len <= block_size,
        decreases len - copied,
    {
        let lba = position / (block_size as u64);
        let offset = (position % (block_size as u64)) as usize;
        let left = len - copied;
        let take = if bs - offset < left { bs - offset } else { left };
        let next = match position.checked_add(take as u64) {
            Some(n) => n,
            None => return None,
        };
        let piece = BlockPiece { lba, offset, len: take };
        proof {
            match block_pieces_from(block_size as int, next as int, left - take) {
                Some(r) => {
                    assert(pieces@ + (seq![piece] + r) =~= pieces@.push(piece) + r);
                },
                None => {},
            }
        }
        pieces.push(piece);
        position = next;
        copied = copied + take;
    }
    proof {
        assert(pieces@ + Seq::<BlockPiece>::empty() =~= pieces@);
    }
    Some(pieces)
}

/// Where the bytes of a file served to wimboot are kept.
pub enum RuntimeStorage {
    /// In extents of `block_size`-byte blocks of the source volume.
    Disk { block_size: u32, extents: Vec<IsoExtent> },
    /// In byte runs of the source volume.
    MappedBytes(Vec<WimbootMappedSegment>),
    /// In memory.
    Memory(Vec<u8>),
}

/// A file served to wimboot under the path it asks for it by.
pub struct WimbootRuntimeFile {
    pub callback_path: String,
    pub size: u64,
    pub storage: RuntimeStorage,
}

/// How the bytes of a read are found.
pub enum RuntimeReadPlan {
    /// Read from the source volume, piece by piece.
    Volume(Vec<ReadPiece>),
    /// Copied from the file's bytes in memory, from `start` on.
    Memory { start: usize },
}

/// The plan of a read of `len` bytes at `offset` of a file: `None` when the
/// read runs past the file, or its bytes cannot all be found.
pub open spec fn runtime_read(file: WimbootRuntimeFile, offset: u64, len: usize) -> Option<RuntimeReadPlanView> {
    if offset + len > u64::MAX || offset + len > file.size {
        None
    } else {
        match file.storage {
            RuntimeStorage::Disk { block_size, extents } => match extent_read(extents@, block_size, offset, len) {
                Some(p) => Some(RuntimeReadPlanView::Volume(p)),
                None => None,
            },
            RuntimeStorage::MappedBytes(segments) => match mapped_read(segments@, offset, len) {
                Some(p) => Some(RuntimeReadPlanView::Volume(p)),
                None => None,
            },
            RuntimeStorage::Memory(data) => if offset > usize::MAX || offset + len > data@.len() {
                None
            } else {
                Some(RuntimeReadPlanView::Memory(offset as usize))
            },
        }
    }
}

/// A read plan as a value of the specification.
pub enum RuntimeReadPlanView {
    Volume(Seq<ReadPiece>),
    Memory(usize),
}

impl RuntimeReadPlan {
    pub open spec fn view(&self) -> RuntimeReadPlanView {
        match self {
            RuntimeReadPlan::Volume(p) => RuntimeReadPlanView::Volume(p@),
            RuntimeReadPlan::Memory { start } => RuntimeReadPlanView::Memory(*start),
        }
    }
}

impl WimbootRuntimeFile {
    /// A file kept in extents of the source volume: an image file, or a file
    /// of the source volume. It needs at least one extent and a block size.
    pub fn from_extents(callback_path: &str, size: u64, block_size: u32, extents: Vec<IsoExtent>) -> (r: Result<
        Self,
        BootError,
    >)
        ensures
            (extents@.len() == 0 || block_size == 0) <==> r is Err,
            r matches Err(e) ==> e == BootError::Unsupported,
            r matches Ok(f) ==> f.callback_path@ == callback_path@ && f.size == size && f.storage == (
            RuntimeStorage::Disk { block_size, extents }),
    {
        if extents.len() == 0 || block_size == 0 {
            return Err(BootError::Unsupported);
        }
        Ok(WimbootRuntimeFile {
            callback_path: callback_path.to_owned(),
            size,
            storage: RuntimeStorage::Disk { block_size, extents },
        })
    }

    /// A file kept in byte runs of the source volume; a file with bytes needs
    /// at least one run.
    pub fn from_mapped_segments(callback_path: &str, size: u64, segments: Vec<WimbootMappedSegment>) -> (r: Result<
        Self,
        BootError,
    >)
        ensures
            (size != 0 && segments@.len() == 0) <==> r is Err,
            r matches Err(e) ==> e == BootError::Unsupported,
            r matches Ok(f) ==> f.callback_path@ == callback_path@ && f.size == size && f.storage == (
            RuntimeStorage::MappedBytes(segments)),
    {
        if size != 0 && segments.len() == 0 {
            return Err(BootError::Unsupported);
        }
        Ok(WimbootRuntimeFile {
            callback_path: callback_path.to_owned(),
            size,
            storage: RuntimeStorage::MappedBytes(segments),
        })
    }

    /// A file kept in memory.
    pub fn from_memory(callback_path: &str, data: Vec<u8>) -> (r: Self)
        ensures
            r.callback_path@ == callback_path@,
            r.size == data@.len(),
            r.storage == RuntimeStorage::Memory(data),
    {
        let size = data.len() as u64;
        WimbootRuntimeFile { callback_path: callback_path.to_owned(), size, storage: RuntimeStorage::Memory(data) }
    }

    /// The size of the file as wimboot's callbacks report it, when it fits.
    pub fn size_i32(&self) -> (r: Option<i32>)
        ensures
            r == (if self.size <= i32::MAX {
                Some(self.size as i32)
            } else {
                None::<i32>
            }),
    {
        if self.size <= i32::MAX as u64 {
            Some(self.size as i32)
        } else {
            None
        }
    }

    /// Plans a read of `len` bytes at `offset` of the file.
    pub fn read_plan(&self, offset: u64, len: usize) -> (r: Option<RuntimeReadPlan>)
        ensures
            r matches Some(p) ==> runtime_read(*self, offset, len) == Some(p.view()),
            r is None ==> runtime_read(*self, offset, len) is None,
    {
        let end = match offset.checked_add(len as u64) {
            Some(e) => e,
            None => return None,
        };
        if end > self.size {
            return None;
        }
        match &self.storage {
            RuntimeStorage::Disk { block_size, extents } => match extent_read_plan(*block_size, extents.as_slice(), offset, len) {
                Some(p) => Some(RuntimeReadPlan::Volume(p)),
                None => None,
            },
            RuntimeStorage::MappedBytes(segments) => match mapped_read_plan(segments.as_slice(), offset, len) {
                Some(p) => Some(RuntimeReadPlan::Volume(p)),
                None => None,
            },
            RuntimeStorage::Memory(data) => {
                if offset > usize::MAX as u64 {
                    return None;
                }
                let start = offset as usize;
                if start > data.len() || len > data.len() - start {
                    return None;
                }
                Some(RuntimeReadPlan::Memory { start })
            },
        }
    }
}

/// The index of the first file served under the path `path`, compared as
/// UTF-8 bytes.
pub open spec fn file_named(files: Seq<WimbootRuntimeFile>, path: Seq<u8>) -> Option<usize> {
    if exists|i: int| 0 <= i < files.len() && encode_utf8((#[trigger] files[i]).callback_path@) == path {
        let i = choose|i: int|
            0 <= i < files.len() && encode_utf8((#[trigger] files[i]).callback_path@) == path && forall|j: int|
                0 <= j < i ==> encode_utf8((#[trigger] files[j]).callback_path@) != path;
        Some(i as usize)
    } else {
        None
    }
}

proof fn lemma_file_named(files: Seq<WimbootRuntimeFile>, path: Seq<u8>, i: int)
    requires
        0 <= i < files.len(),
        encode_utf8(files[i].callback_path@) == path,
        forall|j: int| 0 <= j < i ==> encode_utf8((#[trigger] files[j]).callback_path@) != path,
    ensures
        file_named(files, path) == Some(i as usize),
{
    let c = choose|c: int|
        0 <= c < files.len() && encode_utf8((#[trigger] files[c]).callback_path@) == path && forall|j: int|
            0 <= j < c ==> encode_utf8((#[trigger] files[j]).callback_path@) != path;
    assert(0 <= c < files.len() && encode_utf8(files[c].callback_path@) == path && forall|j: int|
        0 <= j < c ==> encode_utf8((#[trigger] files[j]).callback_path@) != path);
    if c < i {
        assert(encode_utf8(files[c].callback_path@) != path);
    }
    if i < c {
        assert(encode_utf8(files[i].callback_path@) != path);
    }
}

/// Finds the file that wimboot asks for by `path`.
pub fn find_file(files: &[WimbootRuntimeFile], path: &[u8]) -> (r: Option<usize>)
    ensures
        r == file_named(files@, path@),
        r matches Some(i) ==> i < files@.len(),
{
    let mut i: usize = 0;
    while i < files.len()
        invariant
            i <= files@.len(),
            forall|j: int| 0 <= j < i ==> encode_utf8((#[trigger] files@[j]).callback_path@) != path@,
        decreases files@.len() - i,
    {
        if bytes_equal(files[i].callback_path.as_str().as_bytes(), path) {
            proof {
                lemma_file_named(files@, path@, i as int);
            }
            return Some(i);
        }
        i += 1;
    }
    None
}

/// The length of the zero-terminated path at the start of `bytes`: the
/// number of bytes before the first zero, which must come within the first
/// `WIMBOOT_MAX_CALLBACK_PATH` bytes.
pub open spec fn c_path_len(bytes: Seq<u8>) -> Option<usize> {
    if exists|n: int| 0 <= n < WIMBOOT_MAX_CALLBACK_PATH && n < bytes.len() && bytes[n] == 0 {
        let n = choose|n: int|
            0 <= n < WIMBOOT_MAX_CALLBACK_PATH && n < bytes.len() && bytes[n] == 0 && forall|m: int|
                0 <= m < n ==> bytes[m] != 0;
        Some(n as usize)
    } else {
        None
    }
}

/// Finds where the zero-terminated path that wimboot passes to a callback
/// ends.
pub fn c_path_bytes_len(bytes: &[u8]) -> (r: Option<usize>)
    ensures
        r == c_path_len(bytes@),
        r matches Some(n) ==> n < bytes@.len(),
{
    let mut len: usize = 0;
    while len < WIMBOOT_MAX_CALLBACK_PATH && len < bytes.len()
        invariant
            len <= WIMBOOT_MAX_CALLBACK_PATH,
            forall|m: int| 0 <= m < len ==> bytes@[m] != 0,
        decreases WIMBOOT_MAX_CALLBACK_PATH - len,
    {
        if bytes[len] == 0 {
            proof {
                let n = choose|n: int|
                    0 <= n < WIMBOOT_MAX_CALLBACK_PATH && n < bytes@.len() && bytes@[n] == 0 && forall|m: int|
                        0 <= m < n ==> bytes@[m] != 0;
                assert(0 <= len < WIMBOOT_MAX_CALLBACK_PATH && len < bytes@.len() && bytes@[len as int] == 0
                    && forall|m: int| 0 <= m < len ==> bytes@[m] != 0);
                if n < len {
                    assert(bytes@[n] != 0);
                }
                if len < n {
                    assert(bytes@[len as int] != 0);
                }
            }
            return Some(len);
        }
        len += 1;
    }
    None
}

/// What wimboot's read callback is asked to do with its arguments, before
/// the file is looked up.
#[derive(Debug, Clone, Copy, PartialEq, Eq, Structural)]
pub enum CallbackRead {
    /// A negative offset or length: answered with -1.
    Refuse,
    /// Nothing to read: answered with 0.
    Empty,
    /// A read of `len` bytes at `offset`.
    Read { offset: u64, len: usize },
}

/// Sorts a read callback's offset and length.
pub fn callback_read_request(offset: i32, len: i32) -> (r: CallbackRead)
    ensures
        r == (if offset < 0 || len < 0 {
            CallbackRead::Refuse
        } else if len == 0 {
            CallbackRead::Empty
        } else {
            CallbackRead::Read { offset: offset as u64, len: len as usize }
        }),
{
    if offset < 0 || len < 0 {
        return CallbackRead::Refuse;
    }
    if len == 0 {
        return CallbackRead::Empty;
    }
    CallbackRead::Read { offset: offset as u64, len: len as usize }
}

/// The answer of wimboot's size callback for the path at the start of
/// `path`: the file's size, or -1 when the path is not terminated in time,
/// names no file, or the size does not fit.
pub open spec fn file_size_answer(files: Seq<WimbootRuntimeFile>, path: Seq<u8>) -> i32 {
    match c_path_len(path) {
        None => -1i32,
        Some(n) => match file_named(files, path.take(n as int)) {
            None => -1i32,
            Some(i) => if files[i as int].size <= i32::MAX {
                files[i as int].size as i32
            } else {
                -1i32
            },
        },
    }
}

/// Answers wimboot's size callback.
pub fn wimboot_runtime_file_size(files: &[WimbootRuntimeFile], path: &[u8]) -> (r: i32)
    ensures
        r == file_size_answer(files@, path@),
{
    let n = match c_path_bytes_len(path) {
        Some(n) => n,
        None => return -1,
    };
    let name = vstd::slice::slice_subrange(path, 0, n);
    assert(name@ =~= path@.take(n as int));
    let i = match find_file(files, name) {
        Some(i) => i,
        None => return -1,
    };
    match files[i].size_i32() {
        Some(size) => size,
        None => -1,
    }
}

/// What wimboot's read callback does.
pub enum FileReadDecision {
    /// Answer at once with this value.
    Answer(i32),
    /// Read `len` bytes of file `file` as planned, then answer `len`, or -1
    /// when a block read fails.
    Read { file: usize, plan: RuntimeReadPlan, len: i32 },
}

/// Decides what wimboot's read callback does for a read of `len` bytes at
/// `offset` of the file named at the start of `path`, into a buffer that is
/// given or not: -1 for a negative offset or length, a missing buffer, a
/// name not found or a read that cannot be planned; 0 for an empty read.
pub fn wimboot_runtime_file_read(
    files: &[WimbootRuntimeFile],
    path: &[u8],
    offset: i32,
    len: i32,
    buffer_present: bool,
) -> (r: FileReadDecision)
    ensures
        (offset < 0 || len < 0) ==> r == FileReadDecision::Answer(-1i32),
        (offset >= 0 && len == 0) ==> r == FileReadDecision::Answer(0i32),
        (offset >= 0 && len > 0 && !buffer_present) ==> r == FileReadDecision::Answer(-1i32),
        (offset >= 0 && len > 0 && buffer_present) ==> match r {
            FileReadDecision::Answer(a) => a == -1 && match c_path_len(path@) {
                None => true,
                Some(n) => match file_named(files@, path@.take(n as int)) {
                    None => true,
                    Some(i) => runtime_read(files@[i as int], offset as u64, len as usize) is None,
                },
            },
            FileReadDecision::Read { file, plan, len: l } => l == len && match c_path_len(path@) {
                None => false,
                Some(n) => file_named(files@, path@.take(n as int)) == Some(file) && runtime_read(
                    files@[file as int],
                    offset as u64,
                    len as usize,
                ) == Some(plan.view()),
            },
        },
{
    let (start, count) = match callback_read_request(offset, len) {
        CallbackRead::Refuse => return FileReadDecision::Answer(-1i32),
        CallbackRead::Empty => return FileReadDecision::Answer(0),
        CallbackRead::Read { offset, len } => (offset, len),
    };
    if !buffer_present {
        return FileReadDecision::Answer(-1);
    }
    let n = match c_path_bytes_len(path) {
        Some(n) => n,
        None => return FileReadDecision::Answer(-1i32),
    };
    let name = vstd::slice::slice_subrange(path, 0, n);
    assert(name@ =~= path@.take(n as int));
    let i = match find_file(files, name) {
        Some(i) => i,
        None => return FileReadDecision::Answer(-1i32),
    };
    match files[i].read_plan(start, count) {
        Some(plan) => FileReadDecision::Read { file: i, plan, len },
        None => FileReadDecision::Answer(-1i32),
    }
}

} // verus!
