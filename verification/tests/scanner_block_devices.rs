use nextboot_boot::scanner::block_devices::{parent_device_path_or_self, same_parent_device_path, same_physical_disk};
use nextboot_boot::source_disk::{PartitionFormat, SourceDiskIdentity};

fn disk(partition_number: u16, disk_size: u64) -> SourceDiskIdentity {
    SourceDiskIdentity {
        disk_guid: [7; 16],
        disk_signature: [3; 4],
        disk_size,
        block_size: 512,
        partition_number,
        partition_start_lba: u64::from(partition_number) * 2048,
        partition_size_blocks: 4096,
        partition_format: PartitionFormat::Gpt,
    }
}

#[test]
fn compares_parent_disk_not_loaded_partition() {
    assert!(same_physical_disk(disk(1, 128 * 1024), disk(2, 128 * 1024)));
    assert!(!same_physical_disk(disk(1, 128 * 1024), disk(1, 256 * 1024)));
}

fn partition_path(parent_marker: u8, partition_number: u32) -> Vec<u8> {
    let mut path = vec![0x02, 0x01, 0x0c, 0x00, parent_marker, 0, 0, 0, 0, 0, 0, 0];
    path.extend_from_slice(&[0x04, 0x01, 42, 0]);
    path.extend_from_slice(&partition_number.to_le_bytes());
    path.extend_from_slice(&2048u64.to_le_bytes());
    path.extend_from_slice(&4096u64.to_le_bytes());
    path.extend_from_slice(&[0x11; 16]);
    path.extend_from_slice(&[0x02, 0x02]);
    path.extend_from_slice(&[0x7f, 0xff, 0x04, 0x00]);
    path
}

fn physical_path(parent_marker: u8) -> Vec<u8> {
    vec![0x02, 0x01, 0x0c, 0x00, parent_marker, 0, 0, 0, 0, 0, 0, 0, 0x7f, 0xff, 0x04, 0x00]
}

#[test]
fn device_path_fallback_accepts_sibling_partitions_only() {
    assert!(same_parent_device_path(&partition_path(7, 1), &partition_path(7, 2)));
    assert!(!same_parent_device_path(&partition_path(7, 1), &partition_path(8, 2)));
    assert!(same_parent_device_path(&partition_path(7, 1), &physical_path(7)));
}

#[test]
fn parent_path_of_short_path_is_missing() {
    assert_eq!(parent_device_path_or_self(&[1, 2, 3]), None);
    assert_eq!(parent_device_path_or_self(&[1, 2, 3, 4]), Some(vec![1, 2, 3, 4]));
    assert!(!same_parent_device_path(&[1, 2], &[1, 2]));
}

#[test]
fn identities_differ_by_guid_signature_or_block_size() {
    let base = disk(1, 64);
    assert!(!same_physical_disk(base, SourceDiskIdentity { disk_guid: [8; 16], ..base }));
    assert!(!same_physical_disk(base, SourceDiskIdentity { disk_signature: [4; 4], ..base }));
    assert!(!same_physical_disk(base, SourceDiskIdentity { block_size: 4096, ..base }));
}
