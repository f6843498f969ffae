//! Rules shared by the volume scanners: the geometry of a block device, the
//! identity of a partition's disk, and the checks a Ventoy link file passes.

use super::model::{IsoExtent, PartitionCandidate, PartitionRange};
use crate::boot::util::slashes;
use crate::source_disk::{
    build_source_disk_identity, HardDriveDevicePathInfo, PartitionFormat, SourceDiskIdentity, VENTOY_DISK_GUID_OFFSET,
    VENTOY_DISK_SIGNATURE_OFFSET,
};
use crate::text::{chars_of, string_from_chars, trim_chars, trim_seq};
use vstd::prelude::*;

verus! {

/// Block size and byte size of a volume.
#[derive(Debug, Clone, Copy, PartialEq, Eq, Structural)]
pub struct VolumeBlockInfo {
    pub block_size: u32,
    pub total_size: u64,
}

/// A present medium with a non-zero block size whose byte size fits in 64
/// bits.
pub open spec fn volume_info(present: bool, block_size: u32, last_block: u64) -> Option<VolumeBlockInfo> {
    if !present || block_size == 0 || last_block == u64::MAX || (last_block + 1) * block_size > u64::MAX {
        None
    } else {
        Some(VolumeBlockInfo { block_size, total_size: ((last_block + 1) * block_size) as u64 })
    }
}

/// The geometry of a block device from its media description.
pub fn volume_block_info(present: bool, block_size: u32, last_block: u64) -> (r: Option<VolumeBlockInfo>)
    ensures
        r == volume_info(present, block_size, last_block),
{
    if !present || block_size == 0 {
        return None;
    }
    let total_blocks = match last_block.checked_add(1) {
        Some(v) => v,
        None => return None,
    };
    match total_blocks.checked_mul(block_size as u64) {
        Some(total_size) => Some(VolumeBlockInfo { block_size, total_size }),
        None => None,
    }
}

/// The identity of a partition found on a raw disk, as if the firmware had
/// described it with a hard-drive node.
pub fn partition_source_disk_identity(first_block: &[u8], volume_info: VolumeBlockInfo, partition: PartitionCandidate) -> (r:
    Option<SourceDiskIdentity>)
    ensures
        r is Some <==> first_block@.len() >= VENTOY_DISK_SIGNATURE_OFFSET + 4 && partition.number <= u16::MAX,
        r matches Some(id) ==> {
            &&& id.disk_guid@ == first_block@.subrange(VENTOY_DISK_GUID_OFFSET as int, VENTOY_DISK_GUID_OFFSET + 16)
            &&& id.disk_signature@ == first_block@.subrange(
                VENTOY_DISK_SIGNATURE_OFFSET as int,
                VENTOY_DISK_SIGNATURE_OFFSET + 4,
            )
            &&& id.disk_size == volume_info.total_size
            &&& id.block_size == volume_info.block_size
            &&& id.partition_number == partition.number
            &&& id.partition_start_lba == partition.start_lba
            &&& id.partition_size_blocks == partition.block_count
            &&& id.partition_format == partition.format
        },
{
    let info = HardDriveDevicePathInfo {
        node_offset: 0,
        partition_number: partition.number,
        partition_start_lba: partition.start_lba,
        partition_size_blocks: partition.block_count,
        partition_format: partition.format,
        signature_type: match partition.format {
            PartitionFormat::Gpt => 2,
            PartitionFormat::Mbr => 1,
            PartitionFormat::Unknown => 0,
        },
    };
    build_source_disk_identity(first_block, volume_info.total_size, volume_info.block_size, Some(info))
}

/// What a Ventoy link file says about the disk its image is on.
#[derive(Debug, Clone, Copy, PartialEq, Eq)]
pub struct VlnkTarget {
    pub disk_signature: [u8; 4],
    pub part_offset_bytes: u64,
}

/// The partition starting at `start_lba` starts `expected_bytes` into its
/// disk, counted in the disk's blocks or in 512-byte sectors.
pub open spec fn offset_matches(start_lba: u64, block_size: u32, expected_bytes: u64) -> bool {
    (start_lba * block_size <= u64::MAX && start_lba * block_size == expected_bytes) || (start_lba * 512 <= u64::MAX
        && start_lba * 512 == expected_bytes)
}

/// Whether a partition's start matches a byte offset.
pub fn partition_offset_matches(start_lba: u64, block_size: u32, expected_bytes: u64) -> (r: bool)
    ensures
        r == offset_matches(start_lba, block_size, expected_bytes),
{
    let native = match start_lba.checked_mul(block_size as u64) {
        Some(offset) => offset == expected_bytes,
        None => false,
    };
    let ventoy_sector = match start_lba.checked_mul(512) {
        Some(offset) => offset == expected_bytes,
        None => false,
    };
    native || ventoy_sector
}

/// The link points at the disk the boot manager came from: same MBR
/// signature, and a partition starting where the link says.
pub open spec fn vlnk_on_source_disk(source_disk: Option<SourceDiskIdentity>, vlnk: VlnkTarget) -> bool {
    match source_disk {
        Some(disk) => disk.disk_signature@ == vlnk.disk_signature@ && offset_matches(
            disk.partition_start_lba,
            disk.block_size,
            vlnk.part_offset_bytes,
        ),
        None => false,
    }
}

/// Whether a link file targets the source disk.
pub fn vlnk_matches_source_disk(source_disk: Option<SourceDiskIdentity>, vlnk: &VlnkTarget) -> (r: bool)
    ensures
        r == vlnk_on_source_disk(source_disk, *vlnk),
{
    let disk = match source_disk {
        Some(disk) => disk,
        None => return false,
    };
    let a = disk.disk_signature;
    let b = vlnk.disk_signature;
    if !(a[0] == b[0] && a[1] == b[1] && a[2] == b[2] && a[3] == b[3]) {
        return false;
    }
    assert(a@ =~= b@);
    partition_offset_matches(disk.partition_start_lba, disk.block_size, vlnk.part_offset_bytes)
}

/// Whether a link file targets `partition` of a disk with `block_size`-byte
/// blocks.
pub fn vlnk_matches_partition(partition: PartitionCandidate, block_size: u32, vlnk: &VlnkTarget) -> (r: bool)
    ensures
        r == offset_matches(partition.start_lba, block_size, vlnk.part_offset_bytes),
{
    partition_offset_matches(partition.start_lba, block_size, vlnk.part_offset_bytes)
}

/// `s` with each run of `/` cut to its first.
pub open spec fn collapse_slashes(s: Seq<char>) -> Seq<char>
    decreases s.len(),
{
    if s.len() == 0 {
        Seq::empty()
    } else if s.last() == '/' && s.len() >= 2 && s[s.len() - 2] == '/' {
        collapse_slashes(s.drop_last())
    } else {
        collapse_slashes(s.drop_last()).push(s.last())
    }
}

/// A link's target path in canonical form: trimmed, backslashes as slashes,
/// runs of slashes cut to one, and starting with `/`.
pub open spec fn vlnk_target_path(path: Seq<char>) -> Seq<char> {
    let c = collapse_slashes(slashes(trim_seq(path)));
    if c.len() == 0 {
        seq!['/']
    } else if c[0] != '/' {
        seq!['/'] + c
    } else {
        c
    }
}

/// Canonical form of a link's target path.
pub fn normalize_vlnk_target_path(path: &str) -> (r: String)
    ensures
        r@ == vlnk_target_path(path@),
{
    let chars = chars_of(path);
    let trimmed = trim_chars(chars.as_slice());
    let ghost m = slashes(trimmed@);
    let mut out: Vec<char> = Vec::new();
    let mut previous_was_separator = false;
    let mut i: usize = 0;
    while i < trimmed.len()
        invariant
            i <= trimmed@.len(),
            m == slashes(trimmed@),
            out@ == collapse_slashes(m.take(i as int)),
            previous_was_separator == (i > 0 && m[i - 1] == '/'),
        decreases trimmed@.len() - i,
    {
        let ch = if trimmed[i] == '\\' { '/' } else { trimmed[i] };
        let ghost t = m.take(i + 1);
        assert(t.drop_last() =~= m.take(i as int));
        assert(t.last() == ch);
        if ch == '/' {
            if !previous_was_separator {
                out.push(ch);
            }
            previous_was_separator = true;
        } else {
            previous_was_separator = false;
            out.push(ch);
        }
        i += 1;
    }
    assert(m.take(i as int) =~= m);
    if out.len() == 0 {
        return string_from_chars(&['/']);
    }
    if out[0] != '/' {
        let mut with_root: Vec<char> = Vec::new();
        with_root.push('/');
        let mut j: usize = 0;
        while j < out.len()
            invariant
                j <= out@.len(),
                with_root@ == seq!['/'] + out@.take(j as int),
            decreases out@.len() - j,
        {
            with_root.push(out[j]);
            j += 1;
            assert(with_root@ =~= seq!['/'] + out@.take(j as int));
        }
        assert(out@.take(j as int) =~= out@);
        return string_from_chars(with_root.as_slice());
    }
    string_from_chars(out.as_slice())
}

/// Whether a directory at `depth` is searched, with the search limited to
/// `max_search_level` levels when a limit is set.
pub fn should_descend_into_directory(depth: usize, max_search_level: Option<usize>) -> (r: bool)
    ensures
        r == (match max_search_level {
            Some(max_depth) => depth < max_depth,
            None => true,
        }),
{
    match max_search_level {
        Some(max_depth) => depth < max_depth,
        None => true,
    }
}

/// An extent as a (virtual start block, physical LBA, block count) triple.
pub open spec fn extent_triple(e: IsoExtent) -> (u64, u64, u64) {
    (e.virtual_block_start, e.physical_lba, e.block_count)
}

/// The extents as triples, in order.
pub fn extent_map(extents: &[IsoExtent]) -> (r: Vec<(u64, u64, u64)>)
    ensures
        r@ == extents@.map_values(|e: IsoExtent| extent_triple(e)),
{
    let mut out: Vec<(u64, u64, u64)> = Vec::new();
    let mut i: usize = 0;
    while i < extents.len()
        invariant
            i <= extents@.len(),
            out@ == extents@.take(i as int).map_values(|e: IsoExtent| extent_triple(e)),
        decreases extents@.len() - i,
    {
        let e = extents[i];
        out.push((e.virtual_block_start, e.physical_lba, e.block_count));
        i += 1;
        assert(out@ =~= extents@.take(i as int).map_values(|e: IsoExtent| extent_triple(e)));
    }
    assert(extents@.take(i as int) =~= extents@);
    out
}

/// The size recorded for images on a volume: the disk's size when its
/// identity is known, else the volume's, else 0.
pub open spec fn disk_size_for(source_disk: Option<SourceDiskIdentity>, volume: Option<VolumeBlockInfo>) -> u64 {
    match source_disk {
        Some(disk) => disk.disk_size,
        None => match volume {
            Some(info) => info.total_size,
            None => 0,
        },
    }
}

/// Picks the disk size recorded for images on a volume.
pub fn source_disk_size(source_disk: Option<SourceDiskIdentity>, volume: Option<VolumeBlockInfo>) -> (r: u64)
    ensures
        r == disk_size_for(source_disk, volume),
{
    match source_disk {
        Some(disk) => disk.disk_size,
        None => match volume {
            Some(info) => info.total_size,
            None => 0,
        },
    }
}

/// A partition found in a raw disk's tables is searched unless the firmware
/// already exposes it as a device of its own, or it is empty or runs past the
/// disk.
pub open spec fn partition_scannable(partition: PartitionCandidate, exposed: Seq<PartitionRange>, total_blocks: u64) -> bool {
    &&& !(exists|i: int|
        0 <= i < exposed.len() && #[trigger] exposed[i].start_lba == partition.start_lba && exposed[i].block_count
            == partition.block_count)
    &&& partition.block_count != 0
    &&& partition.start_lba + partition.block_count <= total_blocks
}

/// Whether a partition of a raw disk of `total_blocks` blocks is searched.
pub fn should_scan_partition(partition: PartitionCandidate, exposed: &[PartitionRange], total_blocks: u64) -> (r: bool)
    ensures
        r == partition_scannable(partition, exposed@, total_blocks),
{
    let mut i: usize = 0;
    while i < exposed.len()
        invariant
            i <= exposed@.len(),
            forall|j: int|
                0 <= j < i ==> !(#[trigger] exposed@[j].start_lba == partition.start_lba && exposed@[j].block_count
                    == partition.block_count),
        decreases exposed@.len() - i,
    {
        if exposed[i].matches(partition.start_lba, partition.block_count) {
            assert(exposed@[i as int].start_lba == partition.start_lba);
            return false;
        }
        i += 1;
    }
    if partition.block_count == 0 {
        return false;
    }
    match partition.start_lba.checked_add(partition.block_count) {
        Some(end) => end <= total_blocks,
        None => false,
    }
}

} // verus!
