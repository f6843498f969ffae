//! Source disk identity for Ventoy-compatible OS parameters: the hard-drive
//! node of a UEFI device path, and the disk GUID and signature Ventoy keeps in
//! the first disk block.

use crate::bytes::{le_u16, le_u32, le_u64, read_le_u32, read_le_u64};
use vstd::prelude::*;

verus! {

pub const DEVICE_PATH_TYPE_MEDIA: u8 = 0x04;
pub const DEVICE_PATH_SUBTYPE_HARD_DRIVE: u8 = 0x01;
pub const DEVICE_PATH_TYPE_END: u8 = 0x7f;
pub const DEVICE_PATH_SUBTYPE_END_ENTIRE: u8 = 0xff;
pub const HARD_DRIVE_DEVICE_PATH_LEN: usize = 42;
pub const VENTOY_DISK_GUID_OFFSET: usize = 0x180;
pub const VENTOY_DISK_SIGNATURE_OFFSET: usize = 0x1b8;

/// The node that ends an entire device path.
pub open spec fn device_path_end_entire() -> Seq<u8> {
    seq![DEVICE_PATH_TYPE_END, DEVICE_PATH_SUBTYPE_END_ENTIRE, 0x04u8, 0x00u8]
}

/// Partition table kind recorded in a hard-drive device path node.
#[derive(Debug, Clone, Copy, PartialEq, Eq, Structural)]
pub enum PartitionFormat {
    Unknown,
    Mbr,
    Gpt,
}

/// The fields of a hard-drive device path node.
#[derive(Debug, Clone, Copy, PartialEq, Eq, Structural)]
pub struct HardDriveDevicePathInfo {
    pub node_offset: usize,
    pub partition_number: u32,
    pub partition_start_lba: u64,
    pub partition_size_blocks: u64,
    pub partition_format: PartitionFormat,
    pub signature_type: u8,
}

/// The disk and partition an image was loaded from.
#[derive(Debug, Clone, Copy, PartialEq, Eq)]
pub struct SourceDiskIdentity {
    pub disk_guid: [u8; 16],
    pub disk_signature: [u8; 4],
    pub disk_size: u64,
    pub block_size: u32,
    pub partition_number: u16,
    pub partition_start_lba: u64,
    pub partition_size_blocks: u64,
    pub partition_format: PartitionFormat,
}

/// Partition format for the node's format byte.
pub open spec fn partition_format_of(byte: u8) -> PartitionFormat {
    if byte == 1 {
        PartitionFormat::Mbr
    } else if byte == 2 {
        PartitionFormat::Gpt
    } else {
        PartitionFormat::Unknown
    }
}

/// The hard-drive node that starts at `offset`.
pub open spec fn hard_drive_node(b: Seq<u8>, offset: int) -> HardDriveDevicePathInfo {
    HardDriveDevicePathInfo {
        node_offset: offset as usize,
        partition_number: le_u32(b, offset + 4),
        partition_start_lba: le_u64(b, offset + 8),
        partition_size_blocks: le_u64(b, offset + 16),
        partition_format: partition_format_of(b[offset + 40]),
        signature_type: b[offset + 41],
    }
}

/// Walks the device path nodes from `offset`, remembering the last
/// hard-drive node in `found`; the result is `found` at the end-of-path
/// node, and `None` when the path is malformed or has no end node.
pub open spec fn scan_hard_drive(b: Seq<u8>, offset: int, found: Option<HardDriveDevicePathInfo>) -> Option<HardDriveDevicePathInfo>
    decreases b.len() - offset,
{
    if offset < 0 || offset + 4 > b.len() {
        None
    } else {
        let node_len = le_u16(b, offset + 2) as int;
        if node_len < 4 || offset + node_len > b.len() {
            None
        } else if b[offset] == DEVICE_PATH_TYPE_END && b[offset + 1] == DEVICE_PATH_SUBTYPE_END_ENTIRE {
            found
        } else {
            let next = if b[offset] == DEVICE_PATH_TYPE_MEDIA && b[offset + 1] == DEVICE_PATH_SUBTYPE_HARD_DRIVE
                && node_len >= HARD_DRIVE_DEVICE_PATH_LEN {
                Some(hard_drive_node(b, offset))
            } else {
                found
            };
            scan_hard_drive(b, offset + node_len, next)
        }
    }
}

/// The last hard-drive node of a well-formed device path.
pub fn parse_last_hard_drive_device_path(bytes: &[u8]) -> (r: Option<HardDriveDevicePathInfo>)
    ensures
        r == scan_hard_drive(bytes@, 0, None),
{
    let mut offset: usize = 0;
    let mut hard_drive: Option<HardDriveDevicePathInfo> = None;
    while offset <= bytes.len() && bytes.len() - offset >= 4
        invariant
            offset <= bytes@.len() + 0,
            scan_hard_drive(bytes@, offset as int, hard_drive) == scan_hard_drive(bytes@, 0, None),
        decreases bytes@.len() - offset,
    {
        let node_type = bytes[offset];
        let node_subtype = bytes[offset + 1];
        let node_len = ((bytes[offset + 2] as u16) | ((bytes[offset + 3] as u16) << 8u16)) as usize;
        assert(node_len == le_u16(bytes@, offset + 2));
        if node_len < 4 || node_len > bytes.len() - offset {
            return None;
        }
        if node_type == DEVICE_PATH_TYPE_END && node_subtype == DEVICE_PATH_SUBTYPE_END_ENTIRE {
            return hard_drive;
        }
        if node_type == DEVICE_PATH_TYPE_MEDIA && node_subtype == DEVICE_PATH_SUBTYPE_HARD_DRIVE
            && node_len >= HARD_DRIVE_DEVICE_PATH_LEN {
            let partition_number = match read_le_u32(bytes, offset + 4) {
                Some(v) => v,
                None => return None,
            };
            let partition_start_lba = match read_le_u64(bytes, offset + 8) {
                Some(v) => v,
                None => return None,
            };
            let partition_size_blocks = match read_le_u64(bytes, offset + 16) {
                Some(v) => v,
                None => return None,
            };
            let format_byte = bytes[offset + 40];
            let partition_format = if format_byte == 0x01 {
                PartitionFormat::Mbr
            } else if format_byte == 0x02 {
                PartitionFormat::Gpt
            } else {
                PartitionFormat::Unknown
            };
            hard_drive = Some(HardDriveDevicePathInfo {
                node_offset: offset,
                partition_number,
                partition_start_lba,
                partition_size_blocks,
                partition_format,
                signature_type: bytes[offset + 41],
            });
        }
        offset = offset + node_len;
    }
    None
}

/// The device path up to (not including) the hard-drive node, closed by an
/// end-of-path node; `None` when the node lies past the end of `bytes`.
pub fn parent_device_path_bytes(bytes: &[u8], hard_drive: &HardDriveDevicePathInfo) -> (r: Option<Vec<u8>>)
    ensures
        r is None <==> hard_drive.node_offset > bytes@.len(),
        r matches Some(parent) ==> parent@ == bytes@.subrange(0, hard_drive.node_offset as int)
            + device_path_end_entire(),
{
    if hard_drive.node_offset > bytes.len() {
        return None;
    }
    let mut parent: Vec<u8> = Vec::new();
    let mut i: usize = 0;
    while i < hard_drive.node_offset
        invariant
            i <= hard_drive.node_offset <= bytes@.len(),
            parent@ == bytes@.subrange(0, i as int),
        decreases hard_drive.node_offset - i,
    {
        parent.push(bytes[i]);
        i += 1;
    }
    parent.push(DEVICE_PATH_TYPE_END);
    parent.push(DEVICE_PATH_SUBTYPE_END_ENTIRE);
    parent.push(0x04);
    parent.push(0x00);
    assert(parent@ =~= bytes@.subrange(0, hard_drive.node_offset as int) + device_path_end_entire());
    Some(parent)
}

/// Copy of `src[start..start + N]`.
fn copy_bytes<const N: usize>(src: &[u8], start: usize) -> (r: [u8; N])
    requires
        start + N <= src@.len(),
    ensures
        r@ == src@.subrange(start as int, start + N),
{
    let mut out = [0u8; N];
    let n = src.len();
    let mut i: usize = 0;
    while i < N
        invariant
            i <= N,
            n == src@.len(),
            start + N <= src@.len(),
            out@.len() == N,
            forall|j: int| 0 <= j < i ==> out@[j] == src@[start + j],
        decreases N - i,
    {
        out[i] = src[start + i];
        i += 1;
    }
    assert(out@ =~= src@.subrange(start as int, start + N));
    out
}

/// The identity of the disk whose first block is `first_disk_block`, with the
/// partition of `hard_drive` when there is one.  `None` when the block is too
/// short to hold the Ventoy disk GUID and signature, or the partition number
/// does not fit in 16 bits.
pub fn build_source_disk_identity(first_disk_block: &[u8], disk_size: u64, block_size: u32, hard_drive: Option<HardDriveDevicePathInfo>) -> (r: Option<SourceDiskIdentity>)
    ensures
        r is Some <==> first_disk_block@.len() >= VENTOY_DISK_SIGNATURE_OFFSET + 4
            && (hard_drive matches Some(info) ==> info.partition_number <= u16::MAX),
        r matches Some(id) ==> {
            &&& id.disk_guid@ == first_disk_block@.subrange(VENTOY_DISK_GUID_OFFSET as int, VENTOY_DISK_GUID_OFFSET + 16)
            &&& id.disk_signature@ == first_disk_block@.subrange(VENTOY_DISK_SIGNATURE_OFFSET as int, VENTOY_DISK_SIGNATURE_OFFSET + 4)
            &&& id.disk_size == disk_size
            &&& id.block_size == block_size
            &&& match hard_drive {
                Some(info) => id.partition_number == info.partition_number && id.partition_start_lba == info.partition_start_lba
                    && id.partition_size_blocks == info.partition_size_blocks && id.partition_format == info.partition_format,
                None => id.partition_number == 0 && id.partition_start_lba == 0 && id.partition_size_blocks == 0
                    && id.partition_format == PartitionFormat::Unknown,
            }
        },
{
    if first_disk_block.len() < VENTOY_DISK_GUID_OFFSET + 16 || first_disk_block.len() < VENTOY_DISK_SIGNATURE_OFFSET + 4 {
        return None;
    }
    let disk_guid: [u8; 16] = copy_bytes(first_disk_block, VENTOY_DISK_GUID_OFFSET);
    let disk_signature: [u8; 4] = copy_bytes(first_disk_block, VENTOY_DISK_SIGNATURE_OFFSET);
    let (partition_number, partition_start_lba, partition_size_blocks, partition_format) = match hard_drive {
        Some(info) => {
            if info.partition_number > u16::MAX as u32 {
                return None;
            }
            (info.partition_number as u16, info.partition_start_lba, info.partition_size_blocks, info.partition_format)
        },
        None => (0u16, 0u64, 0u64, PartitionFormat::Unknown),
    };
    Some(SourceDiskIdentity {
        disk_guid,
        disk_signature,
        disk_size,
        block_size,
        partition_number,
        partition_start_lba,
        partition_size_blocks,
        partition_format,
    })
}

/// The `(first block, block count)` of the source volume on a device of
/// `base_total_blocks` blocks: the recorded partition when it lies on the
/// device, the whole device when no partition is recorded or the device is
/// the partition itself, and `None` when the record does not fit the device.
pub open spec fn volume_range(base_total_blocks: u64, source_disk: Option<SourceDiskIdentity>) -> Option<(u64, u64)> {
    match source_disk {
        Some(disk) if disk.partition_size_blocks > 0 => {
            if disk.partition_start_lba + disk.partition_size_blocks <= base_total_blocks {
                Some((disk.partition_start_lba, disk.partition_size_blocks))
            } else if disk.partition_size_blocks == base_total_blocks {
                Some((0, base_total_blocks))
            } else {
                None
            }
        },
        _ => Some((0, base_total_blocks)),
    }
}

/// The block range of the source volume on a device of `base_total_blocks`
/// blocks.  A range it gives always lies on the device.
pub fn source_volume_range(base_total_blocks: u64, source_disk: Option<SourceDiskIdentity>) -> (r: Option<(u64, u64)>)
    ensures
        r == volume_range(base_total_blocks, source_disk),
        r matches Some((start, len)) ==> start + len <= base_total_blocks,
{
    let disk = match source_disk {
        Some(disk) if disk.partition_size_blocks > 0 => disk,
        _ => return Some((0, base_total_blocks)),
    };
    let fits = match disk.partition_start_lba.checked_add(disk.partition_size_blocks) {
        Some(end) => end <= base_total_blocks,
        None => false,
    };
    if fits {
        return Some((disk.partition_start_lba, disk.partition_size_blocks));
    }
    if disk.partition_size_blocks == base_total_blocks {
        return Some((0, base_total_blocks));
    }
    None
}

} // verus!
