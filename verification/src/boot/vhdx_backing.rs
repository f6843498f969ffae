//! Differencing VHDX images: which sectors a block of the child holds.

use super::util::{div_round_up, div_rounded_up};
use vstd::prelude::*;

verus! {

/// Bit `bit` of the sector bitmap is set (bits are numbered from the low
/// bit of byte 0); a bit past the bitmap counts as clear.
pub open spec fn bitmap_bit(bitmap: Seq<u8>, bit: int) -> bool {
    bit / 8 < bitmap.len() && bitmap[bit / 8] & ((1u8 << ((bit % 8) as u8)) as u8) != 0
}

/// Whether every sector of the range has its bit set: the child holds the
/// whole range itself.
pub fn bitmap_range_all_present(bitmap: &[u8], first_sector: u64, sector_count: u64) -> (r: bool)
    requires
        first_sector + sector_count <= u64::MAX + 1,
    ensures
        r == forall|i: int| 0 <= i < sector_count ==> #[trigger] bitmap_bit(bitmap@, first_sector + i),
{
    let mut index: u64 = 0;
    while index < sector_count
        invariant
            index <= sector_count,
            first_sector + sector_count <= u64::MAX + 1,
            forall|i: int| 0 <= i < index ==> #[trigger] bitmap_bit(bitmap@, first_sector + i),
        decreases sector_count - index,
    {
        let bit = first_sector + index;
        let byte_index = bit / 8;
        let mask: u8 = 1u8 << ((bit % 8) as u8);
        if byte_index >= bitmap.len() as u64 || bitmap[byte_index as usize] & mask == 0 {
            assert(!bitmap_bit(bitmap@, first_sector + index));
            return false;
        }
        index += 1;
    }
    true
}

/// The sectors of a partly covered payload block, as bits of its chunk's
/// sector bitmap: the block's first sector among the chunk's and the number
/// of sectors that `byte_count` bytes cover; `None` when either does not fit.
pub open spec fn partial_sector_range(
    block_size: u32,
    logical_sector_size: u32,
    payload_index: u64,
    chunk_ratio: u64,
    byte_count: u64,
) -> Option<(u64, u64)> {
    let first = (payload_index % chunk_ratio) * (block_size / logical_sector_size);
    if first > u64::MAX {
        None
    } else {
        match div_rounded_up(byte_count, logical_sector_size as u64) {
            Some(count) => Some((first as u64, count)),
            None => None,
        }
    }
}

/// Where the sectors of a partly covered payload block sit in the sector
/// bitmap of its chunk.
pub fn vhdx_partial_sector_range(
    block_size: u32,
    logical_sector_size: u32,
    payload_index: u64,
    chunk_ratio: u64,
    byte_count: u64,
) -> (r: Option<(u64, u64)>)
    requires
        logical_sector_size > 0,
        chunk_ratio > 0,
    ensures
        r == partial_sector_range(block_size, logical_sector_size, payload_index, chunk_ratio, byte_count),
{
    let sectors_per_block = (block_size / logical_sector_size) as u64;
    let chunk_block_index = payload_index % chunk_ratio;
    let first_sector = match chunk_block_index.checked_mul(sectors_per_block) {
        Some(v) => v,
        None => return None,
    };
    match div_round_up(byte_count, logical_sector_size as u64) {
        Some(count) => Some((first_sector, count)),
        None => None,
    }
}

} // verus!
