//! VDI metadata: the VirtualBox/QEMU VDI 1.1 header and block map needed to
//! expose dynamic or static VDI images as read-only block devices.

pub use crate::bytes::read_le_u32;
use crate::bytes::{is_pow2, is_power_of_two, le_u32, le_u64, read_le_u64};
use vstd::prelude::*;

verus! {

pub const VDI_HEADER_SIZE: usize = 512;
pub const VDI_SIGNATURE: u32 = 0xbeda_107f;
pub const VDI_VERSION_1_1: u32 = 0x0001_0001;
pub const VDI_TYPE_DYNAMIC: u32 = 1;
pub const VDI_TYPE_STATIC: u32 = 2;
pub const VDI_TYPE_DIFFERENCING: u32 = 4;
pub const VDI_UNALLOCATED: u32 = 0xffff_ffff;
pub const VDI_DISCARDED: u32 = 0xffff_fffe;
pub const VDI_DEFAULT_SECTOR_SIZE: u32 = 512;

pub const VDI_SIGNATURE_OFFSET: usize = 0x40;
pub const VDI_VERSION_OFFSET: usize = 0x44;
pub const VDI_HEADER_SIZE_OFFSET: usize = 0x48;
pub const VDI_IMAGE_TYPE_OFFSET: usize = 0x4c;
pub const VDI_OFFSET_BLOCKS_OFFSET: usize = 0x154;
pub const VDI_OFFSET_DATA_OFFSET: usize = 0x158;
pub const VDI_SECTOR_SIZE_OFFSET: usize = 0x168;
pub const VDI_DISK_SIZE_OFFSET: usize = 0x170;
pub const VDI_BLOCK_SIZE_OFFSET: usize = 0x178;
pub const VDI_BLOCK_EXTRA_OFFSET: usize = 0x17c;
pub const VDI_BLOCK_COUNT_OFFSET: usize = 0x180;
pub const VDI_BLOCKS_ALLOCATED_OFFSET: usize = 0x184;

/// The fields of a VDI header that the block device needs.
#[derive(Debug, Clone, Copy, PartialEq, Eq, Structural)]
pub struct VdiMetadata {
    pub image_type: u32,
    pub virtual_disk_size: u64,
    pub block_size: u32,
    pub block_extra_size: u32,
    pub block_count: u32,
    pub blocks_allocated: u32,
    pub offset_blocks: u64,
    pub offset_data: u64,
    pub sector_size: u32,
}

impl VdiMetadata {
    pub fn is_dynamic(&self) -> (r: bool)
        ensures
            r == (self.image_type == VDI_TYPE_DYNAMIC),
    {
        self.image_type == VDI_TYPE_DYNAMIC
    }

    pub fn is_static(&self) -> (r: bool)
        ensures
            r == (self.image_type == VDI_TYPE_STATIC),
    {
        self.image_type == VDI_TYPE_STATIC
    }

    pub fn is_differencing(&self) -> (r: bool)
        ensures
            r == (self.image_type == VDI_TYPE_DIFFERENCING),
    {
        self.image_type == VDI_TYPE_DIFFERENCING
    }
}

/// The metadata a well-formed VDI 1.1 header describes, `None` when the
/// header is short, has another signature or version, an unknown image
/// type, or inconsistent geometry.
pub open spec fn vdi_metadata(h: Seq<u8>) -> Option<VdiMetadata> {
    if h.len() < VDI_HEADER_SIZE {
        None
    } else {
        let header_size = le_u32(h, VDI_HEADER_SIZE_OFFSET as int);
        let image_type = le_u32(h, VDI_IMAGE_TYPE_OFFSET as int);
        let offset_blocks = le_u32(h, VDI_OFFSET_BLOCKS_OFFSET as int) as u64;
        let offset_data = le_u32(h, VDI_OFFSET_DATA_OFFSET as int) as u64;
        let sector_size = le_u32(h, VDI_SECTOR_SIZE_OFFSET as int);
        let disk_size = le_u64(h, VDI_DISK_SIZE_OFFSET as int);
        let block_size = le_u32(h, VDI_BLOCK_SIZE_OFFSET as int);
        let block_count = le_u32(h, VDI_BLOCK_COUNT_OFFSET as int);
        if le_u32(h, VDI_SIGNATURE_OFFSET as int) != VDI_SIGNATURE
            || le_u32(h, VDI_VERSION_OFFSET as int) != VDI_VERSION_1_1
            || header_size == 0 || VDI_HEADER_SIZE_OFFSET + header_size > h.len()
            || !(image_type == VDI_TYPE_DYNAMIC || image_type == VDI_TYPE_STATIC || image_type == VDI_TYPE_DIFFERENCING)
            || disk_size == 0 || block_size == 0 || block_count == 0 || !is_pow2(block_size as int)
            || sector_size != VDI_DEFAULT_SECTOR_SIZE
            || offset_blocks % 512 != 0 || offset_data % 512 != 0
            || disk_size > block_count * block_size
            || offset_blocks + block_count * 4 > offset_data {
            None
        } else {
            Some(VdiMetadata {
                image_type,
                virtual_disk_size: disk_size,
                block_size,
                block_extra_size: le_u32(h, VDI_BLOCK_EXTRA_OFFSET as int),
                block_count,
                blocks_allocated: le_u32(h, VDI_BLOCKS_ALLOCATED_OFFSET as int),
                offset_blocks,
                offset_data,
                sector_size,
            })
        }
    }
}

/// Parses a VDI 1.1 header.
pub fn parse_vdi_metadata(header: &[u8]) -> (r: Option<VdiMetadata>)
    ensures
        r == vdi_metadata(header@),
{
    if header.len() < VDI_HEADER_SIZE {
        return None;
    }
    let signature = read_le_u32(header, VDI_SIGNATURE_OFFSET)?;
    if signature != VDI_SIGNATURE {
        return None;
    }
    let version = read_le_u32(header, VDI_VERSION_OFFSET)?;
    if version != VDI_VERSION_1_1 {
        return None;
    }
    let header_size = read_le_u32(header, VDI_HEADER_SIZE_OFFSET)? as usize;
    if header_size == 0 || header_size > header.len() - VDI_HEADER_SIZE_OFFSET {
        return None;
    }
    let image_type = read_le_u32(header, VDI_IMAGE_TYPE_OFFSET)?;
    if !(image_type == VDI_TYPE_DYNAMIC || image_type == VDI_TYPE_STATIC || image_type == VDI_TYPE_DIFFERENCING) {
        return None;
    }
    let offset_blocks = read_le_u32(header, VDI_OFFSET_BLOCKS_OFFSET)? as u64;
    let offset_data = read_le_u32(header, VDI_OFFSET_DATA_OFFSET)? as u64;
    let sector_size = read_le_u32(header, VDI_SECTOR_SIZE_OFFSET)?;
    let virtual_disk_size = read_le_u64(header, VDI_DISK_SIZE_OFFSET)?;
    let block_size = read_le_u32(header, VDI_BLOCK_SIZE_OFFSET)?;
    let block_extra_size = read_le_u32(header, VDI_BLOCK_EXTRA_OFFSET)?;
    let block_count = read_le_u32(header, VDI_BLOCK_COUNT_OFFSET)?;
    let blocks_allocated = read_le_u32(header, VDI_BLOCKS_ALLOCATED_OFFSET)?;
    if virtual_disk_size == 0 || block_size == 0 || block_count == 0 || !is_power_of_two(block_size as u64)
        || sector_size != VDI_DEFAULT_SECTOR_SIZE || offset_blocks % (VDI_DEFAULT_SECTOR_SIZE as u64) != 0
        || offset_data % (VDI_DEFAULT_SECTOR_SIZE as u64) != 0 {
        return None;
    }
    assert((block_count as u64) * (block_size as u64) <= u64::MAX) by (nonlinear_arith)
        requires block_count <= u32::MAX, block_size <= u32::MAX;
    let capacity = (block_count as u64).checked_mul(block_size as u64)?;
    if virtual_disk_size > capacity {
        return None;
    }
    let map_bytes = block_map_bytes(block_count)?;
    let map_end = offset_blocks.checked_add(map_bytes)?;
    if map_end > offset_data {
        return None;
    }
    Some(VdiMetadata {
        image_type,
        virtual_disk_size,
        block_size,
        block_extra_size,
        block_count,
        blocks_allocated,
        offset_blocks,
        offset_data,
        sector_size,
    })
}

/// Size in bytes of a block map with `block_count` entries.
pub fn block_map_bytes(block_count: u32) -> (r: Option<u64>)
    ensures
        r == Some((block_count * 4) as u64),
{
    (block_count as u64).checked_mul(4)
}

/// Entry `index` of a block map; `None` when the map is too short.
pub fn read_block_map_entry(map: &[u8], index: u32) -> (r: Option<u32>)
    ensures
        r is Some <==> index * 4 + 4 <= map@.len(),
        r matches Some(v) ==> v == le_u32(map@, index * 4),
{
    let offset = (index as u64).checked_mul(4)?;
    if offset > map.len() as u64 {
        return None;
    }
    read_le_u32(map, offset as usize)
}

/// Whether a block map entry points at stored data (rather than marking an
/// unallocated or discarded block).
pub fn is_allocated_block(entry: u32) -> (r: bool)
    ensures
        r == (entry != VDI_UNALLOCATED && entry != VDI_DISCARDED),
{
    entry < VDI_DISCARDED
}

} // verus!
