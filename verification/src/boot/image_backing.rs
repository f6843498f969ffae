//! Virtual disks backed by image files: which bytes of the source volume
//! each range of the virtual disk reads.
//!
//! A file's bytes are found through its extents on the source volume
//! ([`map_file_range`]). Dynamic VHD and VDI images add a block table on top:
//! the caller reads the table, and for each block asks where its bytes are in
//! the file ([`vhd_block_run`], [`vdi_block_source`]), then maps that file
//! range.

use super::vhd::{DynamicFooter, DynamicHeader};
use super::util::{aligned_up_u64, align_up_u64, div_round_up, div_rounded_up};
use super::BootError;
use crate::bytes::le_u32;
use crate::scanner::helpers::{be_value, read_be_u32};
use crate::scanner::model::IsoExtent;
use crate::vdi::{
    block_map_bytes, is_allocated_block, read_block_map_entry, VdiMetadata, VDI_DISCARDED, VDI_TYPE_DIFFERENCING,
    VDI_UNALLOCATED,
};
use vstd::prelude::*;

verus! {

/// A run of the virtual disk read from the source volume: `len` bytes from
/// `virtual_start` on come from byte `physical_start` on.
#[derive(Debug, Clone, Copy, PartialEq, Eq, Structural)]
pub struct ByteSegment {
    pub virtual_start: u64,
    pub len: u64,
    pub physical_start: u64,
}

/// The bytes of the file that an extent holds, `[start, end)`; `None` when
/// they do not fit in 64 bits.
pub open spec fn extent_span(e: IsoExtent, block_size: u64) -> Option<(int, int)> {
    let start = e.virtual_block_start * block_size;
    let len = e.block_count * block_size;
    if start > u64::MAX || len > u64::MAX || start + len > u64::MAX {
        None
    } else {
        Some((start, start + len))
    }
}

/// The first extent from `i` on that holds file byte `cursor`; the spans of
/// the extents before it must fit in 64 bits.
pub open spec fn containing_extent(extents: Seq<IsoExtent>, block_size: u64, cursor: int, i: int) -> Result<
    Option<int>,
    BootError,
>
    decreases extents.len() - i,
{
    if i < 0 || i >= extents.len() {
        Ok(None)
    } else {
        match extent_span(extents[i], block_size) {
            None => Err(BootError::LoadError),
            Some(span) => if cursor < span.0 || cursor >= span.1 {
                containing_extent(extents, block_size, cursor, i + 1)
            } else {
                Ok(Some(i))
            },
        }
    }
}

proof fn lemma_containing_extent_holds(extents: Seq<IsoExtent>, block_size: u64, cursor: int, i: int)
    ensures
        containing_extent(extents, block_size, cursor, i) matches Ok(Some(k)) ==> {
            &&& 0 <= k < extents.len()
            &&& extent_span(extents[k], block_size) matches Some(span) && span.0 <= cursor < span.1
        },
    decreases extents.len() - i,
{
    if 0 <= i < extents.len() {
        lemma_containing_extent_holds(extents, block_size, cursor, i + 1);
    }
}

/// `segments` in front of what `rest` gives.
pub open spec fn prepend(segments: Seq<ByteSegment>, rest: Result<Seq<ByteSegment>, BootError>) -> Result<
    Seq<ByteSegment>,
    BootError,
> {
    match rest {
        Ok(s) => Ok(segments + s),
        Err(e) => Err(e),
    }
}

/// The segments that map file bytes `[cursor, file_end)`, the file byte
/// `file_offset` being virtual byte `virtual_start`: each run goes to the end
/// of the range or of the first extent holding its start, whichever comes
/// first. A byte that no extent holds is a device error; an offset past 64
/// bits a load error.
pub open spec fn map_range_from(
    extents: Seq<IsoExtent>,
    block_size: u64,
    virtual_start: u64,
    file_offset: u64,
    file_end: int,
    cursor: int,
) -> Result<Seq<ByteSegment>, BootError>
    decreases file_end - cursor,
{
    if cursor >= file_end {
        Ok(Seq::empty())
    } else {
        match containing_extent(extents, block_size, cursor, 0) {
            Err(e) => Err(e),
            Ok(None) => Err(BootError::DeviceError),
            Ok(Some(k)) => {
                let span = extent_span(extents[k], block_size)->Some_0;
                let end = if file_end < span.1 { file_end } else { span.1 };
                let physical = extents[k].physical_lba * block_size + (cursor - span.0);
                let virt = virtual_start + (cursor - file_offset);
                if extents[k].physical_lba * block_size > u64::MAX || physical > u64::MAX || virt > u64::MAX {
                    Err(BootError::LoadError)
                } else if end <= cursor {
                    Err(BootError::DeviceError)
                } else {
                    prepend(
                        seq![
                            ByteSegment {
                                virtual_start: virt as u64,
                                len: (end - cursor) as u64,
                                physical_start: physical as u64,
                            },
                        ],
                        map_range_from(extents, block_size, virtual_start, file_offset, file_end, end),
                    )
                }
            },
        }
    }
}

/// The segments cover the virtual bytes `[start, end)` in order, each
/// starting where the one before ended, none of them empty.
pub open spec fn covers(segments: Seq<ByteSegment>, start: int, end: int) -> bool
    decreases segments.len(),
{
    if segments.len() == 0 {
        start == end
    } else {
        segments[0].virtual_start == start && segments[0].len > 0 && covers(
            segments.drop_first(),
            start + segments[0].len,
            end,
        )
    }
}

/// A mapped file range covers its stretch of the virtual disk exactly: the
/// segments follow one another without gap or overlap from the range's
/// first virtual byte to its last.
pub proof fn lemma_mapped_range_covers(
    extents: Seq<IsoExtent>,
    block_size: u64,
    virtual_start: u64,
    file_offset: u64,
    file_end: int,
    cursor: int,
)
    requires
        file_offset <= cursor <= file_end,
        map_range_from(extents, block_size, virtual_start, file_offset, file_end, cursor) is Ok,
    ensures
        covers(
            map_range_from(extents, block_size, virtual_start, file_offset, file_end, cursor)->Ok_0,
            virtual_start + (cursor - file_offset),
            virtual_start + (file_end - file_offset),
        ),
    decreases file_end - cursor,
{
    if cursor < file_end {
        lemma_containing_extent_holds(extents, block_size, cursor, 0);
        let k = containing_extent(extents, block_size, cursor, 0)->Ok_0->Some_0;
        let span = extent_span(extents[k], block_size)->Some_0;
        let end = if file_end < span.1 { file_end } else { span.1 };
        lemma_mapped_range_covers(extents, block_size, virtual_start, file_offset, file_end, end);
        let rest = map_range_from(extents, block_size, virtual_start, file_offset, file_end, end)->Ok_0;
        let all = map_range_from(extents, block_size, virtual_start, file_offset, file_end, cursor)->Ok_0;
        assert(all.drop_first() =~= rest);
        assert(all[0].virtual_start == virtual_start + (cursor - file_offset));
        assert(all[0].len == end - cursor);
    }
}

/// Where `byte_count` bytes of the file from `file_offset` on are, as
/// segments of the virtual disk starting at `virtual_start`. A file without
/// extents is one run from `start_lba`. A block size of zero is an invalid
/// parameter.
pub open spec fn file_range_segments(
    extents: Seq<IsoExtent>,
    start_lba: u64,
    block_size: u32,
    virtual_start: u64,
    file_offset: u64,
    byte_count: u64,
) -> Result<Seq<ByteSegment>, BootError> {
    if block_size == 0 {
        Err(BootError::InvalidParameter)
    } else if extents.len() == 0 {
        if start_lba * block_size > u64::MAX || start_lba * block_size + file_offset > u64::MAX {
            Err(BootError::LoadError)
        } else {
            Ok(
                seq![
                    ByteSegment {
                        virtual_start,
                        len: byte_count,
                        physical_start: (start_lba * block_size + file_offset) as u64,
                    },
                ],
            )
        }
    } else if file_offset + byte_count > u64::MAX {
        Err(BootError::LoadError)
    } else {
        map_range_from(extents, block_size as u64, virtual_start, file_offset, file_offset + byte_count, file_offset as int)
    }
}

/// Finds the first extent holding file byte `cursor`, with its span.
fn find_containing_extent(extents: &[IsoExtent], bs: u64, cursor: u64) -> (r: Result<Option<(u64, u64, usize)>, BootError>)
    ensures
        match r {
            Ok(Some((start, end, k))) => containing_extent(extents@, bs, cursor as int, 0) == Ok::<
                Option<int>,
                BootError,
            >(Some(k as int)) && extent_span(extents@[k as int], bs) == Some((start as int, end as int)),
            Ok(None) => containing_extent(extents@, bs, cursor as int, 0) == Ok::<Option<int>, BootError>(None),
            Err(e) => containing_extent(extents@, bs, cursor as int, 0) == Err::<Option<int>, BootError>(e),
        },
{
    let mut j: usize = 0;
    while j < extents.len()
        invariant
            j <= extents@.len(),
            containing_extent(extents@, bs, cursor as int, 0) == containing_extent(extents@, bs, cursor as int, j as int),
        decreases extents@.len() - j,
    {
        let e = extents[j];
        let start = match e.virtual_block_start.checked_mul(bs) {
            Some(v) => v,
            None => return Err(BootError::LoadError),
        };
        let bytes = match e.block_count.checked_mul(bs) {
            Some(v) => v,
            None => return Err(BootError::LoadError),
        };
        let end = match start.checked_add(bytes) {
            Some(v) => v,
            None => return Err(BootError::LoadError),
        };
        if !(cursor < start || cursor >= end) {
            return Ok(Some((start, end, j)));
        }
        j += 1;
    }
    Ok(None)
}

/// Maps a byte range of an image file to the source volume.
pub fn map_file_range(
    extents: &[IsoExtent],
    start_lba: u64,
    block_size: u32,
    virtual_start: u64,
    file_offset: u64,
    byte_count: u64,
) -> (r: Result<Vec<ByteSegment>, BootError>)
    ensures
        match (r, file_range_segments(extents@, start_lba, block_size, virtual_start, file_offset, byte_count)) {
            (Ok(v), Ok(s)) => v@ == s,
            (Err(e), Err(f)) => e == f,
            _ => false,
        },
{
    let bs = block_size as u64;
    if bs == 0 {
        return Err(BootError::InvalidParameter);
    }
    let mut segments: Vec<ByteSegment> = Vec::new();
    if extents.len() == 0 {
        assert(bs * start_lba == start_lba * block_size) by (nonlinear_arith)
            requires
                bs == block_size,
        ;
        let physical_start = match bs.checked_mul(start_lba) {
            Some(v) => match v.checked_add(file_offset) {
                Some(p) => p,
                None => return Err(BootError::LoadError),
            },
            None => return Err(BootError::LoadError),
        };
        segments.push(ByteSegment { virtual_start, len: byte_count, physical_start });
        assert(segments@ =~= seq![ByteSegment { virtual_start, len: byte_count, physical_start }]);
        return Ok(segments);
    }
    let file_end = match file_offset.checked_add(byte_count) {
        Some(v) => v,
        None => return Err(BootError::LoadError),
    };
    let mut cursor = file_offset;
    assert(segments@ + Seq::<ByteSegment>::empty() =~= segments@);
    while cursor < file_end
        invariant
            bs == block_size as u64,
            bs > 0,
            file_end == file_offset + byte_count,
            file_offset <= cursor,
            extents@.len() > 0,
            map_range_from(extents@, bs, virtual_start, file_offset, file_end as int, file_offset as int) == prepend(
                segments@,
                map_range_from(extents@, bs, virtual_start, file_offset, file_end as int, cursor as int),
            ),
        decreases file_end - cursor,
    {
        let (start, end, k) = match find_containing_extent(extents, bs, cursor) {
            Ok(Some(f)) => f,
            Ok(None) => return Err(BootError::DeviceError),
            Err(e) => return Err(e),
        };
        proof {
            lemma_containing_extent_holds(extents@, bs, cursor as int, 0);
        }
        let e = extents[k];
        let overlap_end = if file_end < end { file_end } else { end };
        let physical_start = match e.physical_lba.checked_mul(bs) {
            Some(v) => match v.checked_add(cursor - start) {
                Some(p) => p,
                None => return Err(BootError::LoadError),
            },
            None => return Err(BootError::LoadError),
        };
        let segment_virtual_start = match virtual_start.checked_add(cursor - file_offset) {
            Some(v) => v,
            None => return Err(BootError::LoadError),
        };
        let ghost before = segments@;
        let seg = ByteSegment { virtual_start: segment_virtual_start, len: overlap_end - cursor, physical_start };
        segments.push(seg);
        proof {
            let rest = map_range_from(extents@, bs, virtual_start, file_offset, file_end as int, overlap_end as int);
            assert(map_range_from(extents@, bs, virtual_start, file_offset, file_end as int, cursor as int) == prepend(
                seq![seg],
                rest,
            ));
            match rest {
                Ok(s) => {
                    assert(before + (seq![seg] + s) =~= segments@ + s);
                },
                Err(_) => {},
            }
        }
        cursor = overlap_end;
    }
    assert(segments@ + Seq::<ByteSegment>::empty() =~= segments@);
    Ok(segments)
}

/// Where the footer of an image of `image_size` bytes starts: its last 512
/// bytes.
pub fn vhd_footer_offset(image_size: u64) -> (r: Result<u64, BootError>)
    ensures
        image_size >= 512 ==> r == Ok::<u64, BootError>((image_size - 512) as u64),
        image_size < 512 ==> r == Err::<u64, BootError>(BootError::LoadError),
{
    match image_size.checked_sub(512) {
        Some(v) => Ok(v),
        None => Err(BootError::LoadError),
    }
}

/// The block layout of a dynamic VHD.
#[derive(Debug, Clone, Copy, PartialEq, Eq, Structural)]
pub struct VhdLayout {
    pub block_size: u64,
    /// The sector bitmap before each block's data, in whole sectors.
    pub bitmap_bytes: u64,
    /// Block table entries that cover the virtual size.
    pub entries: u64,
    /// Bytes of the block table to read, in whole sectors.
    pub bat_bytes: u64,
}

/// The layout of a dynamic VHD of `virtual_size` bytes from its header:
/// blocks of whole sectors, a bitmap of one bit per sector rounded to whole
/// sectors, and enough table entries for the virtual size, which the table
/// must hold.
pub open spec fn vhd_layout(header: DynamicHeader, virtual_size: u64) -> Result<VhdLayout, BootError> {
    let block_size = header.block_size as u64;
    if virtual_size == 0 || block_size == 0 || block_size % 512 != 0 {
        Err(BootError::LoadError)
    } else {
        let sectors_per_block = (block_size / 512) as u64;
        let bitmap = match div_rounded_up(sectors_per_block, 8) {
            Some(b) => aligned_up_u64(b, 512),
            None => None,
        };
        let entries = div_rounded_up(virtual_size, block_size);
        if bitmap is None || entries is None {
            Err(BootError::LoadError)
        } else if entries->Some_0 == 0 || header.max_table_entries < entries->Some_0 {
            Err(BootError::LoadError)
        } else if entries->Some_0 * 4 > u64::MAX || aligned_up_u64((entries->Some_0 * 4) as u64, 512) is None {
            Err(BootError::LoadError)
        } else {
            Ok(
                VhdLayout {
                    block_size,
                    bitmap_bytes: bitmap->Some_0,
                    entries: entries->Some_0,
                    bat_bytes: aligned_up_u64((entries->Some_0 * 4) as u64, 512)->Some_0,
                },
            )
        }
    }
}

/// Checks a dynamic VHD's header against its virtual size and lays out its
/// blocks.
pub fn dynamic_vhd_layout(header: DynamicHeader, virtual_size: u64) -> (r: Result<VhdLayout, BootError>)
    ensures
        r == vhd_layout(header, virtual_size),
{
    let block_size = header.block_size as u64;
    if virtual_size == 0 || block_size == 0 || block_size % 512 != 0 {
        return Err(BootError::LoadError);
    }
    let sectors_per_block = block_size / 512;
    let bitmap_bytes = match div_round_up(sectors_per_block, 8) {
        Some(b) => match align_up_u64(b, 512) {
            Some(v) => v,
            None => return Err(BootError::LoadError),
        },
        None => return Err(BootError::LoadError),
    };
    let entries = match div_round_up(virtual_size, block_size) {
        Some(v) => v,
        None => return Err(BootError::LoadError),
    };
    if entries == 0 || (header.max_table_entries as u64) < entries {
        return Err(BootError::LoadError);
    }
    let bat_bytes = match entries.checked_mul(4) {
        Some(b) => match align_up_u64(b, 512) {
            Some(v) => v,
            None => return Err(BootError::LoadError),
        },
        None => return Err(BootError::LoadError),
    };
    Ok(VhdLayout { block_size, bitmap_bytes, entries, bat_bytes })
}

/// Where a block of a virtual disk is read from in its image file.
#[derive(Debug, Clone, Copy, PartialEq, Eq, Structural)]
pub enum BlockSource {
    /// The block starts at or past the end of the virtual disk.
    End,
    /// The block holds no data of its own: it reads as zeros.
    Zero,
    /// The block is read from the parent image.
    Parent { virtual_start: u64, byte_count: u64 },
    /// The block is read from the image file.
    File { virtual_start: u64, file_offset: u64, byte_count: u64 },
}

/// The bytes of block `index` that lie on a virtual disk of `virtual_size`
/// bytes: a whole block, or what is left of the disk.
pub open spec fn block_bytes(index: int, block_size: int, virtual_size: int) -> int {
    if block_size < virtual_size - index * block_size { block_size } else { virtual_size - index * block_size }
}

/// Where dynamic VHD block `index` is read from: nowhere for an unused
/// table entry, else from the sector the entry names, past the block's
/// bitmap. Data past the end of the image file is a device error.
pub open spec fn vhd_block(layout: VhdLayout, bat: Seq<u8>, index: u64, virtual_size: u64, image_size: u64) -> Result<
    BlockSource,
    BootError,
> {
    if index * 4 > u64::MAX {
        Err(BootError::LoadError)
    } else if index * 4 > usize::MAX {
        Err(BootError::OutOfResources)
    } else if index * 4 + 4 > bat.len() {
        Err(BootError::LoadError)
    } else {
        let entry = be_value(bat, index * 4, 4);
        let start = index * layout.block_size;
        if entry == 0xffff_ffff {
            Ok(BlockSource::Zero)
        } else if start > u64::MAX {
            Err(BootError::LoadError)
        } else if start >= virtual_size {
            Ok(BlockSource::End)
        } else if entry * 512 + layout.bitmap_bytes > u64::MAX {
            Err(BootError::LoadError)
        } else {
            let count = block_bytes(index as int, layout.block_size as int, virtual_size as int);
            let offset = entry * 512 + layout.bitmap_bytes;
            if offset + count > image_size {
                Err(BootError::DeviceError)
            } else {
                Ok(BlockSource::File { virtual_start: start as u64, file_offset: offset as u64, byte_count: count as u64 })
            }
        }
    }
}

/// Looks up block `index` of a dynamic VHD in its block table `bat`.
pub fn vhd_block_run(layout: VhdLayout, bat: &[u8], index: u64, virtual_size: u64, image_size: u64) -> (r: Result<
    BlockSource,
    BootError,
>)
    ensures
        r == vhd_block(layout, bat@, index, virtual_size, image_size),
{
    let bat_offset = match index.checked_mul(4) {
        Some(v) => v,
        None => return Err(BootError::LoadError),
    };
    if bat_offset > usize::MAX as u64 {
        return Err(BootError::OutOfResources);
    }
    let entry = match read_be_u32(bat, bat_offset as usize) {
        Some(v) => v,
        None => return Err(BootError::LoadError),
    };
    if entry == 0xffff_ffff {
        return Ok(BlockSource::Zero);
    }
    let virtual_start = match index.checked_mul(layout.block_size) {
        Some(v) => v,
        None => return Err(BootError::LoadError),
    };
    if virtual_start >= virtual_size {
        return Ok(BlockSource::End);
    }
    let byte_count = if layout.block_size < virtual_size - virtual_start {
        layout.block_size
    } else {
        virtual_size - virtual_start
    };
    let file_offset = match (entry as u64).checked_mul(512) {
        Some(v) => match v.checked_add(layout.bitmap_bytes) {
            Some(o) => o,
            None => return Err(BootError::LoadError),
        },
        None => return Err(BootError::LoadError),
    };
    match file_offset.checked_add(byte_count) {
        Some(end) => if end > image_size {
            return Err(BootError::DeviceError);
        },
        None => return Err(BootError::DeviceError),
    }
    Ok(BlockSource::File { virtual_start, file_offset, byte_count })
}

/// The VDI block map's place in the file: after the header and before the
/// data, within the file.
pub open spec fn vdi_map_range(meta: VdiMetadata, file_size: u64) -> Result<(u64, u64), BootError> {
    let bytes = meta.block_count * 4;
    if meta.offset_blocks + bytes > u64::MAX || meta.offset_blocks + bytes > file_size || meta.offset_blocks + bytes
        > meta.offset_data {
        Err(BootError::LoadError)
    } else {
        Ok((meta.offset_blocks, bytes as u64))
    }
}

/// Where the VDI block map is, as an offset and a length in bytes.
pub fn vdi_block_map_range(meta: VdiMetadata, file_size: u64) -> (r: Result<(u64, u64), BootError>)
    ensures
        r == vdi_map_range(meta, file_size),
{
    let map_bytes = match block_map_bytes(meta.block_count) {
        Some(v) => v,
        None => return Err(BootError::LoadError),
    };
    match meta.offset_blocks.checked_add(map_bytes) {
        Some(end) => if end > file_size || end > meta.offset_data {
            Err(BootError::LoadError)
        } else {
            Ok((meta.offset_blocks, map_bytes))
        },
        None => Err(BootError::LoadError),
    }
}

/// Where VDI block `index` is read from: a block the map marks unallocated
/// or discarded comes from the parent of a differencing image (which must
/// have one) or reads as zeros; an allocated one comes from its data block,
/// which must be among those allocated and within the file.
pub open spec fn vdi_block(meta: VdiMetadata, map: Seq<u8>, index: u32, image_size: u64, has_parent: bool) -> Result<
    BlockSource,
    BootError,
> {
    let block_size = meta.block_size as int;
    let start = index * block_size;
    let count = block_bytes(index as int, block_size, meta.virtual_disk_size as int);
    if start >= meta.virtual_disk_size {
        Ok(BlockSource::End)
    } else if index * 4 + 4 > map.len() {
        Err(BootError::LoadError)
    } else {
        let entry = le_u32(map, index * 4);
        if entry == VDI_UNALLOCATED || entry == VDI_DISCARDED {
            if meta.image_type == VDI_TYPE_DIFFERENCING {
                if has_parent {
                    Ok(BlockSource::Parent { virtual_start: start as u64, byte_count: count as u64 })
                } else {
                    Err(BootError::Unsupported)
                }
            } else {
                Ok(BlockSource::Zero)
            }
        } else if entry >= meta.blocks_allocated {
            Err(BootError::LoadError)
        } else if meta.offset_data + entry * block_size > u64::MAX {
            Err(BootError::LoadError)
        } else if meta.offset_data + entry * block_size + count > image_size {
            Err(BootError::DeviceError)
        } else {
            Ok(
                BlockSource::File {
                    virtual_start: start as u64,
                    file_offset: (meta.offset_data + entry * block_size) as u64,
                    byte_count: count as u64,
                },
            )
        }
    }
}

/// Looks up VDI block `index` in the block map.
pub fn vdi_block_source(meta: VdiMetadata, block_map: &[u8], index: u32, image_size: u64, has_parent: bool) -> (r:
    Result<BlockSource, BootError>)
    ensures
        r == vdi_block(meta, block_map@, index, image_size, has_parent),
{
    let block_size = meta.block_size as u64;
    assert(index * block_size <= u64::MAX) by (nonlinear_arith)
        requires
            index <= u32::MAX,
            block_size <= u32::MAX,
    ;
    let virtual_start = index as u64 * block_size;
    if virtual_start >= meta.virtual_disk_size {
        return Ok(BlockSource::End);
    }
    let byte_count = if block_size < meta.virtual_disk_size - virtual_start {
        block_size
    } else {
        meta.virtual_disk_size - virtual_start
    };
    let entry = match read_block_map_entry(block_map, index) {
        Some(v) => v,
        None => return Err(BootError::LoadError),
    };
    if !is_allocated_block(entry) {
        if meta.is_differencing() {
            if has_parent {
                return Ok(BlockSource::Parent { virtual_start, byte_count });
            }
            return Err(BootError::Unsupported);
        }
        return Ok(BlockSource::Zero);
    }
    if entry >= meta.blocks_allocated {
        return Err(BootError::LoadError);
    }
    assert(entry * block_size <= u64::MAX) by (nonlinear_arith)
        requires
            entry <= u32::MAX,
            block_size <= u32::MAX,
    ;
    let file_offset = match meta.offset_data.checked_add(entry as u64 * block_size) {
        Some(v) => v,
        None => return Err(BootError::LoadError),
    };
    match file_offset.checked_add(byte_count) {
        Some(end) => if end > image_size {
            return Err(BootError::DeviceError);
        },
        None => return Err(BootError::DeviceError),
    }
    Ok(BlockSource::File { virtual_start, file_offset, byte_count })
}

/// A VDI block that is read from the image file is read from the data block
/// that its block-map entry names, not from the one its own number would:
/// the entry is below the count of allocated blocks, the bytes start that
/// many blocks past the start of the data area, cover the block's part of
/// the virtual disk starting at the block's own virtual offset, and lie
/// within the file.
pub proof fn lemma_vdi_block_reads_its_data_block(
    meta: VdiMetadata,
    map: Seq<u8>,
    index: u32,
    image_size: u64,
    has_parent: bool,
)
    requires
        vdi_block(meta, map, index, image_size, has_parent) is Ok,
        vdi_block(meta, map, index, image_size, has_parent)->Ok_0 is File,
    ensures
        ({
            let entry = le_u32(map, index * 4);
            match vdi_block(meta, map, index, image_size, has_parent)->Ok_0 {
                BlockSource::File { virtual_start, file_offset, byte_count } => {
                    &&& index * 4 + 4 <= map.len()
                    &&& entry != VDI_UNALLOCATED && entry != VDI_DISCARDED
                    &&& entry < meta.blocks_allocated
                    &&& file_offset == meta.offset_data + entry * meta.block_size
                    &&& virtual_start == index * meta.block_size
                    &&& virtual_start + byte_count <= meta.virtual_disk_size
                    &&& file_offset + byte_count <= image_size
                },
                _ => false,
            }
        }),
{
}

} // verus!
