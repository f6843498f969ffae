//! Growing the exFAT allocation bitmap with the volume.
//!
//! The bitmap is found through the root directory, whose clusters the caller
//! reads one after the other: [`exfat_bitmap_geometry`] checks the boot
//! sector, [`exfat_cluster_lba`] places a cluster, [`find_bitmap_entry`]
//! looks through a directory cluster, [`exfat_fat_entry_location`] places the
//! FAT entry that links a cluster to the next, and the chain walks check each
//! link. [`check_bitmap_chain`] decides whether the bitmap can simply be given
//! its new length.

use super::PartitionInfo;
use crate::bytes::{le_u32, le_u64, read_le_u32, read_le_u64};
use vstd::prelude::*;

verus! {

pub const EXFAT_BOOT_REGION_SECTORS: u64 = 12;
pub const EXFAT_FAT_OFFSET: usize = 80;
pub const EXFAT_FAT_LENGTH: usize = 84;
pub const EXFAT_CLUSTER_HEAP_OFFSET: usize = 88;
pub const EXFAT_CLUSTER_COUNT: usize = 92;
pub const EXFAT_ROOT_CLUSTER: usize = 96;
pub const EXFAT_BYTES_PER_SECTOR_SHIFT: usize = 108;
pub const EXFAT_SECTORS_PER_CLUSTER_SHIFT: usize = 109;
pub const EXFAT_ALLOCATION_BITMAP_ENTRY: u8 = 0x81;
pub const EXFAT_CLUSTER_EOC: u32 = 0xffff_ffff;
pub const EXFAT_DIRECTORY_ENTRY_SIZE: usize = 32;

/// What the boot sector says about the layout, and what the bitmap of the
/// grown volume needs.
#[derive(Debug, Clone, Copy, PartialEq, Eq, Structural)]
pub struct ExfatBitmapGeometry {
    pub sectors_per_cluster: u64,
    pub fat_offset: u64,
    pub cluster_heap_offset: u64,
    pub old_cluster_count: u32,
    pub root_cluster: u32,
    pub cluster_bytes: u64,
    pub required_bitmap_bytes: u64,
    pub required_bitmap_clusters: u64,
}

/// `old + 1`, saturating at `u32::MAX`: the highest valid cluster number.
pub open spec fn last_cluster(old_cluster_count: u32) -> int {
    if old_cluster_count == u32::MAX { u32::MAX as int } else { old_cluster_count + 1 }
}

/// The layout in the boot sector `boot`, checked against the media's block
/// size, and the bitmap size for `new_cluster_count` clusters: one bit per
/// cluster, rounded up to whole bytes and then to whole clusters.
pub open spec fn bitmap_geometry(boot: Seq<u8>, block_size: u32, new_cluster_count: u32) -> Result<ExfatBitmapGeometry, &'static str> {
    if boot.len() <= 108 {
        Err("missing exFAT sector shift")
    } else if boot[108] >= 64 {
        Err("invalid exFAT sector shift")
    } else if (1u64 << boot[108]) != block_size {
        Err("exFAT sector size does not match media")
    } else if boot.len() <= 109 {
        Err("missing exFAT cluster shift")
    } else if boot[109] >= 64 {
        Err("invalid exFAT cluster shift")
    } else {
        let sectors_per_cluster = 1u64 << boot[109];
        let fat_offset = le_u32(boot, 80);
        let fat_length = le_u32(boot, 84);
        let heap = le_u32(boot, 88);
        let old_count = le_u32(boot, 92);
        let root = le_u32(boot, 96);
        if fat_length == 0 || fat_offset < 24 || fat_offset + fat_length > heap || root < 2 || root > last_cluster(
            old_count,
        ) {
            Err("invalid exFAT bitmap growth geometry")
        } else if sectors_per_cluster * block_size > u64::MAX {
            Err("exFAT cluster size overflows")
        } else {
            let cluster_bytes = sectors_per_cluster * block_size;
            let required_bytes = (new_cluster_count + 7) / 8;
            if required_bytes + cluster_bytes - 1 > u64::MAX {
                Err("exFAT bitmap size overflows")
            } else {
                Ok(
                    ExfatBitmapGeometry {
                        sectors_per_cluster,
                        fat_offset: fat_offset as u64,
                        cluster_heap_offset: heap as u64,
                        old_cluster_count: old_count,
                        root_cluster: root,
                        cluster_bytes: cluster_bytes as u64,
                        required_bitmap_bytes: required_bytes as u64,
                        required_bitmap_clusters: ((required_bytes + cluster_bytes - 1) / cluster_bytes) as u64,
                    },
                )
            }
        }
    }
}

/// Reads and checks the layout of the exFAT volume from its boot sector.
pub fn exfat_bitmap_geometry(boot: &[u8], block_size: u32, new_cluster_count: u32) -> (r: Result<
    ExfatBitmapGeometry,
    &'static str,
>)
    ensures
        r == bitmap_geometry(boot@, block_size, new_cluster_count),
        r matches Ok(g) ==> g.sectors_per_cluster >= 1 && g.cluster_bytes >= 1 && g.root_cluster >= 2,
{
    if boot.len() <= EXFAT_BYTES_PER_SECTOR_SHIFT {
        return Err("missing exFAT sector shift");
    }
    let sector_shift = boot[EXFAT_BYTES_PER_SECTOR_SHIFT];
    if sector_shift >= 64 {
        return Err("invalid exFAT sector shift");
    }
    let bytes_per_sector = 1u64 << sector_shift;
    if bytes_per_sector != block_size as u64 {
        return Err("exFAT sector size does not match media");
    }
    assert(bytes_per_sector > 0) by (bit_vector)
        requires
            bytes_per_sector == 1u64 << sector_shift,
            sector_shift < 64,
    ;
    if boot.len() <= EXFAT_SECTORS_PER_CLUSTER_SHIFT {
        return Err("missing exFAT cluster shift");
    }
    let cluster_shift = boot[EXFAT_SECTORS_PER_CLUSTER_SHIFT];
    if cluster_shift >= 64 {
        return Err("invalid exFAT cluster shift");
    }
    let sectors_per_cluster = 1u64 << cluster_shift;
    assert(sectors_per_cluster > 0) by (bit_vector)
        requires
            sectors_per_cluster == 1u64 << cluster_shift,
            cluster_shift < 64,
    ;
    let fat_offset = match read_le_u32(boot, EXFAT_FAT_OFFSET) {
        Some(v) => v as u64,
        None => return Err("missing exFAT FAT offset"),
    };
    let fat_length = match read_le_u32(boot, EXFAT_FAT_LENGTH) {
        Some(v) => v as u64,
        None => return Err("missing exFAT FAT length"),
    };
    let cluster_heap_offset = match read_le_u32(boot, EXFAT_CLUSTER_HEAP_OFFSET) {
        Some(v) => v as u64,
        None => return Err("missing exFAT cluster heap offset"),
    };
    let old_cluster_count = match read_le_u32(boot, EXFAT_CLUSTER_COUNT) {
        Some(v) => v,
        None => return Err("missing exFAT cluster count"),
    };
    let root_cluster = match read_le_u32(boot, EXFAT_ROOT_CLUSTER) {
        Some(v) => v,
        None => return Err("missing exFAT root cluster"),
    };
    if fat_length == 0 || fat_offset < EXFAT_BOOT_REGION_SECTORS * 2 || fat_offset + fat_length > cluster_heap_offset
        || root_cluster < 2 || root_cluster > old_cluster_count.saturating_add(1) {
        return Err("invalid exFAT bitmap growth geometry");
    }
    let cluster_bytes = match sectors_per_cluster.checked_mul(block_size as u64) {
        Some(v) => v,
        None => return Err("exFAT cluster size overflows"),
    };
    assert(cluster_bytes >= 1) by (nonlinear_arith)
        requires
            cluster_bytes == sectors_per_cluster * block_size,
            sectors_per_cluster >= 1,
            block_size >= 1,
    ;
    let required_bitmap_bytes = (new_cluster_count as u64 + 7) / 8;
    let required_bitmap_clusters = match required_bitmap_bytes.checked_add(cluster_bytes - 1) {
        Some(v) => v / cluster_bytes,
        None => return Err("exFAT bitmap size overflows"),
    };
    Ok(
        ExfatBitmapGeometry {
            sectors_per_cluster,
            fat_offset,
            cluster_heap_offset,
            old_cluster_count,
            root_cluster,
            cluster_bytes,
            required_bitmap_bytes,
            required_bitmap_clusters,
        },
    )
}

/// First block of cluster `cluster` (numbered from 2) of the volume that
/// starts at `data`; `None` when it does not fit in 64 bits.
pub open spec fn cluster_lba(data: PartitionInfo, geometry: ExfatBitmapGeometry, cluster: u32) -> Option<u64> {
    let lba = data.start_lba + geometry.cluster_heap_offset + (cluster - 2) * geometry.sectors_per_cluster;
    if data.start_lba + geometry.cluster_heap_offset > u64::MAX || (cluster - 2) * geometry.sectors_per_cluster
        > u64::MAX || lba > u64::MAX {
        None
    } else {
        Some(lba as u64)
    }
}

/// Places cluster `cluster` on the disk.
pub fn exfat_cluster_lba(data: PartitionInfo, geometry: ExfatBitmapGeometry, cluster: u32) -> (r: Result<u64, &'static str>)
    requires
        cluster >= 2,
    ensures
        r == (match cluster_lba(data, geometry, cluster) {
            Some(lba) => Ok(lba),
            None => Err("exFAT root cluster offset overflows"),
        }),
{
    let base = match data.start_lba.checked_add(geometry.cluster_heap_offset) {
        Some(v) => v,
        None => return Err("exFAT root cluster offset overflows"),
    };
    let offset = match ((cluster - 2) as u64).checked_mul(geometry.sectors_per_cluster) {
        Some(v) => v,
        None => return Err("exFAT root cluster offset overflows"),
    };
    match base.checked_add(offset) {
        Some(v) => Ok(v),
        None => Err("exFAT root cluster offset overflows"),
    }
}

/// Where an allocation bitmap entry was found in a directory cluster, with
/// its first cluster and its length in bytes.
#[derive(Debug, Clone, Copy, PartialEq, Eq, Structural)]
pub struct BitmapEntry {
    pub offset: usize,
    pub first_cluster: u32,
    pub length: u64,
}

/// The allocation bitmap entry among the 32-byte directory entries of `dir`
/// from `offset` on: `Ok(None)` at the end-of-directory marker or the end of
/// the cluster, an error when the entry is cut short.
pub open spec fn bitmap_entry_from(dir: Seq<u8>, offset: int) -> Result<Option<BitmapEntry>, &'static str>
    decreases dir.len() - offset,
{
    if offset < 0 || offset >= dir.len() || dir[offset] == 0 {
        Ok(None)
    } else if dir[offset] != 0x81 {
        if offset + 32 >= dir.len() {
            Ok(None)
        } else {
            bitmap_entry_from(dir, offset + 32)
        }
    } else if offset + 32 > dir.len() {
        Err("truncated exFAT allocation bitmap")
    } else {
        Ok(
            Some(
                BitmapEntry {
                    offset: offset as usize,
                    first_cluster: le_u32(dir, offset + 20),
                    length: le_u64(dir, offset + 24),
                },
            ),
        )
    }
}

/// Looks for the allocation bitmap entry in a root directory cluster.
pub fn find_bitmap_entry(directory: &[u8]) -> (r: Result<Option<BitmapEntry>, &'static str>)
    ensures
        r == bitmap_entry_from(directory@, 0),
        r matches Ok(Some(e)) ==> e.offset + 32 <= directory@.len(),
{
    let len = directory.len();
    let mut offset: usize = 0;
    while offset < len
        invariant
            len == directory@.len(),
            bitmap_entry_from(directory@, 0) == bitmap_entry_from(directory@, offset as int),
        decreases len - offset,
    {
        let entry_type = directory[offset];
        if entry_type == 0 {
            return Ok(None);
        }
        if entry_type == EXFAT_ALLOCATION_BITMAP_ENTRY {
            if len - offset < EXFAT_DIRECTORY_ENTRY_SIZE {
                return Err("truncated exFAT allocation bitmap");
            }
            let first_cluster = read_le_u32(directory, offset + 20);
            let length = read_le_u64(directory, offset + 24);
            return match (first_cluster, length) {
                (Some(first_cluster), Some(length)) => Ok(Some(BitmapEntry { offset, first_cluster, length })),
                _ => Err("truncated exFAT allocation bitmap"),
            };
        }
        if len - offset <= EXFAT_DIRECTORY_ENTRY_SIZE {
            return Ok(None);
        }
        offset = offset + EXFAT_DIRECTORY_ENTRY_SIZE;
    }
    Ok(None)
}

/// The block of the FAT that holds the entry of `cluster`, and the entry's
/// offset in that block.
pub open spec fn fat_entry_location(cluster: u32, block_size: u32, data: PartitionInfo, fat_offset: u64) -> Option<(u64, usize)> {
    let entry_offset = cluster * 4;
    let lba = data.start_lba + fat_offset + entry_offset / (block_size as int);
    if data.start_lba + fat_offset > u64::MAX || lba > u64::MAX {
        None
    } else {
        Some((lba as u64, (entry_offset % (block_size as int)) as usize))
    }
}

/// Places the FAT entry of `cluster`; the caller reads that block and the
/// little-endian `u32` at the offset.
pub fn exfat_fat_entry_location(cluster: u32, block_size: u32, data: PartitionInfo, fat_offset: u64) -> (r: Result<
    (u64, usize),
    &'static str,
>)
    requires
        block_size > 0,
    ensures
        r == (match fat_entry_location(cluster, block_size, data, fat_offset) {
            Some(loc) => Ok(loc),
            None => Err("exFAT FAT sector offset overflows"),
        }),
        r matches Ok(loc) ==> loc.1 < block_size,
{
    let entry_offset = cluster as u64 * 4;
    let sector_offset = entry_offset / block_size as u64;
    let offset_in_sector = (entry_offset % block_size as u64) as usize;
    let base = match data.start_lba.checked_add(fat_offset) {
        Some(v) => v,
        None => return Err("exFAT FAT sector offset overflows"),
    };
    match base.checked_add(sector_offset) {
        Some(lba) => Ok((lba, offset_in_sector)),
        None => Err("exFAT FAT sector offset overflows"),
    }
}

/// Reads the FAT entry at `offset` of a FAT block.
pub fn exfat_fat_entry(sector: &[u8], offset: usize) -> (r: Result<u32, &'static str>)
    ensures
        offset + 4 <= sector@.len() ==> r == Ok::<u32, &'static str>(le_u32(sector@, offset as int)),
        offset + 4 > sector@.len() ==> r == Err::<u32, &'static str>("truncated exFAT FAT entry"),
{
    match read_le_u32(sector, offset) {
        Some(v) => Ok(v),
        None => Err("truncated exFAT FAT entry"),
    }
}

/// A cluster number a chain may link to: from 2 up to the last cluster.
pub open spec fn valid_cluster(cluster: u32, cluster_count: u32) -> bool {
    cluster >= 2 && cluster <= last_cluster(cluster_count)
}

/// Where the walk of the root directory's cluster chain stands: the cluster
/// to read and how many clusters were read, counting it.
#[derive(Debug, Clone, Copy, PartialEq, Eq, Structural)]
pub struct RootWalk {
    pub current: u32,
    pub steps: u32,
}

/// Starts the walk at the root cluster; a volume of no clusters has no root
/// directory to walk.
pub fn root_walk_start(geometry: ExfatBitmapGeometry) -> (r: Result<RootWalk, &'static str>)
    ensures
        geometry.old_cluster_count >= 1 ==> r == Ok::<RootWalk, &'static str>(
            RootWalk { current: geometry.root_cluster, steps: 1 },
        ),
        geometry.old_cluster_count < 1 ==> r == Err::<RootWalk, &'static str>("invalid exFAT root directory chain"),
{
    if 1 > geometry.old_cluster_count {
        return Err("invalid exFAT root directory chain");
    }
    Ok(RootWalk { current: geometry.root_cluster, steps: 1 })
}

/// The walk after the FAT linked the current cluster to `next`: the end of
/// the chain without a bitmap, a link out of the volume, or more clusters
/// than the volume has are errors.
pub open spec fn root_walk_next(walk: RootWalk, next: u32, old_cluster_count: u32) -> Result<RootWalk, &'static str> {
    if next == 0xffff_ffff {
        Err("missing exFAT allocation bitmap")
    } else if !valid_cluster(next, old_cluster_count) {
        Err("invalid exFAT root directory chain")
    } else if walk.steps == u32::MAX {
        Err("exFAT root chain overflows")
    } else if walk.steps + 1 > old_cluster_count {
        Err("invalid exFAT root directory chain")
    } else {
        Ok(RootWalk { current: next, steps: (walk.steps + 1) as u32 })
    }
}

/// Follows the root directory's chain to `next`.
pub fn root_walk_step(walk: RootWalk, next: u32, old_cluster_count: u32) -> (r: Result<RootWalk, &'static str>)
    ensures
        r == root_walk_next(walk, next, old_cluster_count),
        r matches Ok(w) ==> w.current >= 2,
{
    if next == EXFAT_CLUSTER_EOC {
        return Err("missing exFAT allocation bitmap");
    }
    if next < 2 || next > old_cluster_count.saturating_add(1) {
        return Err("invalid exFAT root directory chain");
    }
    let steps = match walk.steps.checked_add(1) {
        Some(v) => v,
        None => return Err("exFAT root chain overflows"),
    };
    if steps > old_cluster_count {
        return Err("invalid exFAT root directory chain");
    }
    Ok(RootWalk { current: next, steps })
}

/// Where the walk of the bitmap's cluster chain stands: the cluster whose
/// link is read next and the chain's length so far, counting it.
#[derive(Debug, Clone, Copy, PartialEq, Eq, Structural)]
pub struct BitmapChainWalk {
    pub current: u32,
    pub length: u64,
}

/// What one link of the bitmap chain gives: the chain's length at its end,
/// or the walk going on.
#[derive(Debug, Clone, Copy, PartialEq, Eq, Structural)]
pub enum ChainStep {
    Done(u64),
    Next(BitmapChainWalk),
}

/// Starts walking the bitmap chain at `first_cluster`.
pub fn bitmap_chain_start(first_cluster: u32, cluster_count: u32) -> (r: Result<BitmapChainWalk, &'static str>)
    ensures
        !valid_cluster(first_cluster, cluster_count) ==> r == Err::<BitmapChainWalk, &'static str>(
            "invalid exFAT allocation bitmap cluster",
        ),
        valid_cluster(first_cluster, cluster_count) && cluster_count < 1 ==> r == Err::<
            BitmapChainWalk,
            &'static str,
        >("invalid exFAT allocation bitmap chain"),
        valid_cluster(first_cluster, cluster_count) && cluster_count >= 1 ==> r == Ok::<
            BitmapChainWalk,
            &'static str,
        >(BitmapChainWalk { current: first_cluster, length: 1 }),
{
    if first_cluster < 2 || first_cluster > cluster_count.saturating_add(1) {
        return Err("invalid exFAT allocation bitmap cluster");
    }
    if 1 > cluster_count as u64 {
        return Err("invalid exFAT allocation bitmap chain");
    }
    Ok(BitmapChainWalk { current: first_cluster, length: 1 })
}

/// The walk after the FAT linked the current cluster to `next`. The chain
/// must end, and go forward only, within the volume's clusters.
pub open spec fn bitmap_chain_next(walk: BitmapChainWalk, next: u32, cluster_count: u32) -> Result<ChainStep, &'static str> {
    if next == 0xffff_ffff {
        Ok(ChainStep::Done(walk.length))
    } else if !valid_cluster(next, cluster_count) || next <= walk.current || walk.length + 1 > cluster_count {
        Err("invalid exFAT allocation bitmap chain")
    } else {
        Ok(ChainStep::Next(BitmapChainWalk { current: next, length: (walk.length + 1) as u64 }))
    }
}

/// Follows the bitmap chain to `next`.
pub fn bitmap_chain_step(walk: BitmapChainWalk, next: u32, cluster_count: u32) -> (r: Result<ChainStep, &'static str>)
    requires
        walk.length <= cluster_count,
    ensures
        r == bitmap_chain_next(walk, next, cluster_count),
{
    if next == EXFAT_CLUSTER_EOC {
        return Ok(ChainStep::Done(walk.length));
    }
    if next < 2 || next > cluster_count.saturating_add(1) || next <= walk.current {
        return Err("invalid exFAT allocation bitmap chain");
    }
    let length = walk.length + 1;
    if length > cluster_count as u64 {
        return Err("invalid exFAT allocation bitmap chain");
    }
    Ok(ChainStep::Next(BitmapChainWalk { current: next, length }))
}

/// The bitmap can take the grown volume when its chain already has exactly
/// the clusters its recorded length needs, and the grown volume needs as many.
pub open spec fn bitmap_chain_fits(geometry: ExfatBitmapGeometry, bitmap_length: u64, bitmap_clusters: u64) -> Result<(), &'static str> {
    if bitmap_length + geometry.cluster_bytes - 1 > u64::MAX {
        Err("exFAT bitmap length overflows")
    } else if bitmap_clusters != (bitmap_length + geometry.cluster_bytes - 1) / (geometry.cluster_bytes as int)
        || bitmap_clusters != geometry.required_bitmap_clusters {
        Err("exFAT allocation bitmap chain cannot cover expanded volume")
    } else {
        Ok(())
    }
}

/// Checks that the bitmap's chain of `bitmap_clusters` clusters covers both
/// its old length and the grown volume.
pub fn check_bitmap_chain(geometry: ExfatBitmapGeometry, bitmap_length: u64, bitmap_clusters: u64) -> (r: Result<
    (),
    &'static str,
>)
    requires
        geometry.cluster_bytes >= 1,
    ensures
        r == bitmap_chain_fits(geometry, bitmap_length, bitmap_clusters),
{
    let expected_old_clusters = match bitmap_length.checked_add(geometry.cluster_bytes - 1) {
        Some(v) => v / geometry.cluster_bytes,
        None => return Err("exFAT bitmap length overflows"),
    };
    if bitmap_clusters != expected_old_clusters || bitmap_clusters != geometry.required_bitmap_clusters {
        return Err("exFAT allocation bitmap chain cannot cover expanded volume");
    }
    Ok(())
}

} // verus!
