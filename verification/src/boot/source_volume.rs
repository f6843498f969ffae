//! Reading blocks of the source volume: the image's own partition seen
//! through the block device of the whole disk.

use vstd::prelude::*;
use crate::source_disk::{source_volume_range, volume_range, SourceDiskIdentity};

verus! {

/// Why a block read was refused before it reached the device.
#[derive(Debug, Clone, Copy, PartialEq, Eq, Structural)]
pub enum BlockReadError {
    /// The buffer is empty or not a whole number of blocks.
    InvalidBufferSize,
    /// The blocks asked for run past the end of the device or volume.
    OutOfBounds,
}

/// The number of blocks that a read of `buf_len` bytes at `lba` covers on a
/// device of `total_blocks` blocks of `block_size` bytes, or why the read is
/// refused.
pub open spec fn read_request(block_size: u32, buf_len: usize, lba: u64, total_blocks: u64) -> Result<
    u64,
    BlockReadError,
> {
    if block_size == 0 || buf_len == 0 || buf_len % (block_size as usize) != 0 {
        Err(BlockReadError::InvalidBufferSize)
    } else if lba + buf_len / (block_size as usize) > total_blocks {
        Err(BlockReadError::OutOfBounds)
    } else {
        Ok((buf_len / (block_size as usize)) as u64)
    }
}

/// Checks a read of `buf_len` bytes at `lba` against the device geometry and
/// gives the number of blocks it covers.
pub fn check_block_read(block_size: u32, buf_len: usize, lba: u64, total_blocks: u64) -> (r: Result<
    u64,
    BlockReadError,
>)
    ensures
        r == read_request(block_size, buf_len, lba, total_blocks),
{
    let block_size = block_size as usize;
    if block_size == 0 || buf_len == 0 || buf_len % block_size != 0 {
        return Err(BlockReadError::InvalidBufferSize);
    }
    let block_count = (buf_len / block_size) as u64;
    match lba.checked_add(block_count) {
        Some(end) if end <= total_blocks => Ok(block_count),
        _ => Err(BlockReadError::OutOfBounds),
    }
}

/// A reader of the source volume: the blocks `lba_offset ..
/// lba_offset + total_blocks` of a device of `base_total_blocks` blocks.
#[derive(Debug, Clone, Copy, PartialEq, Eq, Structural)]
pub struct SourceVolumeGeometry {
    pub block_size: u32,
    pub base_total_blocks: u64,
    pub lba_offset: u64,
    pub total_blocks: u64,
}

/// The geometry of the source volume on a device with the given media
/// description, or `None` where the device has no medium, a zero block size
/// or does not hold the volume.
pub open spec fn volume_geometry(
    present: bool,
    block_size: u32,
    last_block: u64,
    source_disk: Option<SourceDiskIdentity>,
) -> Option<SourceVolumeGeometry> {
    if block_size == 0 || !present {
        None
    } else {
        match volume_range((last_block + 1) as u64, source_disk) {
            Some((offset, total)) => Some(
                SourceVolumeGeometry {
                    block_size,
                    base_total_blocks: (last_block + 1) as u64,
                    lba_offset: offset,
                    total_blocks: total,
                },
            ),
            None => None,
        }
    }
}

/// The block on the device that a read at `lba` of the volume starts at,
/// or why the read is refused: it is checked against the volume and then,
/// moved by the volume's offset, against the device.
pub open spec fn volume_read(g: SourceVolumeGeometry, lba: u64, buf_len: usize) -> Result<
    u64,
    BlockReadError,
> {
    match read_request(g.block_size, buf_len, lba, g.total_blocks) {
        Err(e) => Err(e),
        Ok(_) => if g.lba_offset + lba > u64::MAX {
            Err(BlockReadError::OutOfBounds)
        } else {
            match read_request(g.block_size, buf_len, (g.lba_offset + lba) as u64, g.base_total_blocks) {
                Err(e) => Err(e),
                Ok(_) => Ok((g.lba_offset + lba) as u64),
            }
        },
    }
}

impl SourceVolumeGeometry {
    /// The geometry of the source volume on a device with the given media
    /// description.
    pub fn new(present: bool, block_size: u32, last_block: u64, source_disk: Option<SourceDiskIdentity>) -> (r:
        Option<Self>)
        requires
            last_block < u64::MAX,
        ensures
            r == volume_geometry(present, block_size, last_block, source_disk),
            r matches Some(g) ==> g.lba_offset + g.total_blocks <= g.base_total_blocks,
    {
        if block_size == 0 || !present {
            return None;
        }
        let base_total_blocks = last_block + 1;
        match source_volume_range(base_total_blocks, source_disk) {
            Some((lba_offset, total_blocks)) => Some(
                SourceVolumeGeometry { block_size, base_total_blocks, lba_offset, total_blocks },
            ),
            None => None,
        }
    }

    /// The block on the device that a read of `buf_len` bytes at `lba` of
    /// the volume starts at.
    pub fn physical_lba(&self, lba: u64, buf_len: usize) -> (r: Result<u64, BlockReadError>)
        ensures
            r == volume_read(*self, lba, buf_len),
    {
        match check_block_read(self.block_size, buf_len, lba, self.total_blocks) {
            Err(e) => return Err(e),
            Ok(_) => {},
        }
        let physical = match self.lba_offset.checked_add(lba) {
            Some(p) => p,
            None => return Err(BlockReadError::OutOfBounds),
        };
        match check_block_read(self.block_size, buf_len, physical, self.base_total_blocks) {
            Err(e) => Err(e),
            Ok(_) => Ok(physical),
        }
    }
}

/// A read that the source-volume reader lets through stays inside the volume,
/// and so inside the device: it starts at or after the volume's first block
/// and its last block is before the volume's end.
pub proof fn lemma_volume_read_stays_in_volume(g: SourceVolumeGeometry, lba: u64, buf_len: usize)
    requires
        g.lba_offset + g.total_blocks <= g.base_total_blocks,
        volume_read(g, lba, buf_len) is Ok,
    ensures
        ({
            let p = volume_read(g, lba, buf_len)->Ok_0;
            let count = buf_len / (g.block_size as usize);
            &&& g.lba_offset <= p
            &&& p + count <= g.lba_offset + g.total_blocks
            &&& p + count <= g.base_total_blocks
        }),
{
}

} // verus!
