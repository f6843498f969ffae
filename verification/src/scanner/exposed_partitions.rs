//! Partitions of a disk that the firmware already exposes as block devices
//! of their own.

use super::model::PartitionRange;
use crate::source_disk::{
    device_path_end_entire, parse_last_hard_drive_device_path, scan_hard_drive, DEVICE_PATH_SUBTYPE_END_ENTIRE,
    DEVICE_PATH_TYPE_END,
};
use vstd::prelude::*;

verus! {

/// The partition that the device path `path` names, when it is a partition
/// of the disk whose device path is `disk_path`: its last hard-drive node
/// follows exactly the disk's nodes.
pub open spec fn child_partition(disk_path: Seq<u8>, path: Seq<u8>) -> Option<PartitionRange> {
    match scan_hard_drive(path, 0, None) {
        Some(hd) => if hd.node_offset <= path.len() && disk_path == path.subrange(0, hd.node_offset as int)
            + device_path_end_entire() {
            Some(PartitionRange { start_lba: hd.partition_start_lba, block_count: hd.partition_size_blocks })
        } else {
            None
        },
        None => None,
    }
}

/// The partitions of the disk `disk_path` among the device paths `paths`,
/// in their order.
pub open spec fn child_partitions(disk_path: Seq<u8>, paths: Seq<Seq<u8>>) -> Seq<PartitionRange>
    decreases paths.len(),
{
    if paths.len() == 0 {
        seq![]
    } else {
        let rest = child_partitions(disk_path, paths.drop_last());
        match child_partition(disk_path, paths.last()) {
            Some(range) => rest.push(range),
            None => rest,
        }
    }
}

/// Whether `disk_path` is `path[..prefix_len]` closed by an end node.
fn is_disk_of(disk_path: &[u8], path: &[u8], prefix_len: usize) -> (r: bool)
    requires
        prefix_len <= path@.len(),
    ensures
        r == (disk_path@ == path@.subrange(0, prefix_len as int) + device_path_end_entire()),
{
    let ghost wanted = path@.subrange(0, prefix_len as int) + device_path_end_entire();
    if disk_path.len() < 4 || disk_path.len() - 4 != prefix_len {
        return false;
    }
    let mut i: usize = 0;
    while i < prefix_len
        invariant
            i <= prefix_len <= path@.len(),
            disk_path@.len() == prefix_len + 4,
            wanted == path@.subrange(0, prefix_len as int) + device_path_end_entire(),
            forall|j: int| 0 <= j < i ==> disk_path@[j] == wanted[j],
        decreases prefix_len - i,
    {
        if disk_path[i] != path[i] {
            assert(disk_path@[i as int] != wanted[i as int]);
            return false;
        }
        i += 1;
    }
    let end_ok = disk_path[prefix_len] == DEVICE_PATH_TYPE_END && disk_path[prefix_len + 1]
        == DEVICE_PATH_SUBTYPE_END_ENTIRE && disk_path[prefix_len + 2] == 0x04 && disk_path[prefix_len + 3] == 0x00;
    if end_ok {
        assert(disk_path@ =~= wanted);
    } else {
        assert(disk_path@ != wanted) by {
            if disk_path@ == wanted {
                assert(disk_path@[prefix_len as int] == wanted[prefix_len as int]);
                assert(disk_path@[prefix_len + 1] == wanted[prefix_len + 1]);
                assert(disk_path@[prefix_len + 2] == wanted[prefix_len + 2]);
                assert(disk_path@[prefix_len + 3] == wanted[prefix_len + 3]);
            }
        }
    }
    end_ok
}

/// The partition that `path` names when it is a partition of the disk
/// `disk_path`.
pub fn exposed_child_partition(disk_path: &[u8], path: &[u8]) -> (r: Option<PartitionRange>)
    ensures
        r == child_partition(disk_path@, path@),
{
    let hd = match parse_last_hard_drive_device_path(path) {
        Some(hd) => hd,
        None => return None,
    };
    if hd.node_offset > path.len() {
        return None;
    }
    if is_disk_of(disk_path, path, hd.node_offset) {
        Some(PartitionRange { start_lba: hd.partition_start_lba, block_count: hd.partition_size_blocks })
    } else {
        None
    }
}

/// The partitions of the disk `disk_path` that the device paths of the
/// other block devices name, in the order of `paths`.
pub fn exposed_child_partitions(disk_path: &[u8], paths: &[Vec<u8>]) -> (r: Vec<PartitionRange>)
    ensures
        r@ == child_partitions(disk_path@, paths@.map_values(|p: Vec<u8>| p@)),
{
    let ghost views = paths@.map_values(|p: Vec<u8>| p@);
    let mut ranges: Vec<PartitionRange> = Vec::new();
    let mut i: usize = 0;
    while i < paths.len()
        invariant
            i <= paths@.len(),
            views == paths@.map_values(|p: Vec<u8>| p@),
            ranges@ == child_partitions(disk_path@, views.take(i as int)),
        decreases paths@.len() - i,
    {
        let found = exposed_child_partition(disk_path, paths[i].as_slice());
        proof {
            assert(views.take(i + 1).drop_last() =~= views.take(i as int));
            assert(views.take(i + 1).last() == paths@[i as int]@);
        }
        match found {
            Some(range) => ranges.push(range),
            None => {},
        }
        i += 1;
    }
    assert(views.take(i as int) =~= views);
    ranges
}

} // verus!
