//! Which raw block devices belong to the disk the boot manager was loaded
//! from.

use crate::source_disk::{
    device_path_end_entire, parent_device_path_bytes, parse_last_hard_drive_device_path, scan_hard_drive,
    SourceDiskIdentity,
};
use vstd::prelude::*;

verus! {

/// Whether two byte strings are equal.
pub fn bytes_equal(a: &[u8], b: &[u8]) -> (r: bool)
    ensures
        r == (a@ == b@),
{
    if a.len() != b.len() {
        return false;
    }
    let mut i: usize = 0;
    while i < a.len()
        invariant
            a@.len() == b@.len(),
            i <= a@.len(),
            forall|j: int| 0 <= j < i ==> a@[j] == b@[j],
        decreases a@.len() - i,
    {
        if a[i] != b[i] {
            return false;
        }
        i += 1;
    }
    assert(a@ =~= b@);
    true
}

/// Two identities describe the same physical disk: same Ventoy GUID and
/// signature, size and block size (the partitions may differ).
pub open spec fn same_disk(left: SourceDiskIdentity, right: SourceDiskIdentity) -> bool {
    left.disk_guid@ == right.disk_guid@ && left.disk_signature@ == right.disk_signature@ && left.disk_size == right.disk_size
        && left.block_size == right.block_size
}

/// Identities on one disk compare as the same disk whatever partitions they
/// name, and the comparison does not depend on their order.
pub proof fn lemma_same_disk_ignores_partitions(left: SourceDiskIdentity, right: SourceDiskIdentity)
    ensures
        same_disk(left, right) == same_disk(right, left),
        left.disk_guid == right.disk_guid && left.disk_signature == right.disk_signature && left.disk_size
            == right.disk_size && left.block_size == right.block_size ==> same_disk(left, right),
{
}

/// Whether two identities describe the same physical disk.
pub fn same_physical_disk(left: SourceDiskIdentity, right: SourceDiskIdentity) -> (r: bool)
    ensures
        r == same_disk(left, right),
{
    bytes_equal(&left.disk_guid, &right.disk_guid) && bytes_equal(&left.disk_signature, &right.disk_signature)
        && left.disk_size == right.disk_size && left.block_size == right.block_size
}

/// The device path of the disk holding `path`: the path up to its last
/// hard-drive node, or the path itself when it has none and is long enough
/// to hold a node.
pub open spec fn parent_or_self(path: Seq<u8>) -> Option<Seq<u8>> {
    match scan_hard_drive(path, 0, None) {
        Some(hard_drive) => if hard_drive.node_offset <= path.len() {
            Some(path.subrange(0, hard_drive.node_offset as int) + device_path_end_entire())
        } else {
            None
        },
        None => if path.len() >= 4 {
            Some(path)
        } else {
            None
        },
    }
}

/// The device path of the disk holding `path`.
pub fn parent_device_path_or_self(path: &[u8]) -> (r: Option<Vec<u8>>)
    ensures
        parent_or_self(path@) is None <==> r is None,
        r matches Some(parent) ==> parent_or_self(path@) == Some(parent@),
{
    match parse_last_hard_drive_device_path(path) {
        Some(hard_drive) => parent_device_path_bytes(path, &hard_drive),
        None => {
            if path.len() >= 4 {
                let mut copy: Vec<u8> = Vec::new();
                let mut i: usize = 0;
                while i < path.len()
                    invariant
                        i <= path@.len(),
                        copy@ == path@.take(i as int),
                    decreases path@.len() - i,
                {
                    copy.push(path[i]);
                    i += 1;
                    assert(copy@ =~= path@.take(i as int));
                }
                assert(path@.take(i as int) =~= path@);
                Some(copy)
            } else {
                None
            }
        },
    }
}

/// Two device paths lie on the same disk.
pub open spec fn same_parent(left: Seq<u8>, right: Seq<u8>) -> bool {
    match (parent_or_self(left), parent_or_self(right)) {
        (Some(l), Some(r)) => l == r,
        _ => false,
    }
}

/// Whether two device paths lie on the same disk.
pub fn same_parent_device_path(left: &[u8], right: &[u8]) -> (r: bool)
    ensures
        r == same_parent(left@, right@),
{
    let l = match parent_device_path_or_self(left) {
        Some(p) => p,
        None => return false,
    };
    let r = match parent_device_path_or_self(right) {
        Some(p) => p,
        None => return false,
    };
    bytes_equal(l.as_slice(), r.as_slice())
}

/// Whether a volume found by the raw fallback scan is on the boot medium.
/// With the boot disk's identity known, the candidate's identity must name
/// the same disk; else, with the boot device known, the candidate must be it
/// or share its disk's device path; with neither known, every candidate is
/// accepted. A missing identity or device path refuses the candidate.
pub open spec fn boot_media_candidate(
    preferred: Option<SourceDiskIdentity>,
    candidate_identity: Option<SourceDiskIdentity>,
    has_boot_device: bool,
    is_boot_device: bool,
    boot_path: Option<Seq<u8>>,
    candidate_path: Option<Seq<u8>>,
) -> bool {
    match preferred {
        Some(expected) => match candidate_identity {
            Some(c) => same_disk(expected, c),
            None => false,
        },
        None => if !has_boot_device {
            true
        } else if is_boot_device {
            true
        } else {
            match (boot_path, candidate_path) {
                (Some(b), Some(c)) => same_parent(b, c),
                _ => false,
            }
        },
    }
}

/// Decides whether a volume found by the raw fallback scan is on the boot
/// medium, from what the firmware tells of the boot disk and the candidate.
pub fn raw_scan_candidate_is_boot_media(
    preferred: Option<SourceDiskIdentity>,
    candidate_identity: Option<SourceDiskIdentity>,
    has_boot_device: bool,
    is_boot_device: bool,
    boot_path: Option<&[u8]>,
    candidate_path: Option<&[u8]>,
) -> (r: bool)
    ensures
        r == boot_media_candidate(
            preferred,
            candidate_identity,
            has_boot_device,
            is_boot_device,
            match boot_path { Some(p) => Some(p@), None => None },
            match candidate_path { Some(p) => Some(p@), None => None },
        ),
{
    match preferred {
        Some(expected) => match candidate_identity {
            Some(c) => same_physical_disk(expected, c),
            None => false,
        },
        None => {
            if !has_boot_device || is_boot_device {
                return true;
            }
            match (boot_path, candidate_path) {
                (Some(b), Some(c)) => same_parent_device_path(b, c),
                _ => false,
            }
        },
    }
}

} // verus!
