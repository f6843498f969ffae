use nextboot_boot::scanner::block_devices::raw_scan_candidate_is_boot_media;
use nextboot_boot::scanner::exposed_partitions::{exposed_child_partition, exposed_child_partitions};
use nextboot_boot::scanner::model::PartitionRange;
use nextboot_boot::source_disk::{PartitionFormat, SourceDiskIdentity};

fn disk_path(marker: u8) -> Vec<u8> {
    vec![0x02, 0x01, 0x0c, 0x00, marker, 0, 0, 0, 0, 0, 0, 0, 0x7f, 0xff, 0x04, 0x00]
}

fn partition_on(marker: u8, number: u32, start: u64, size: u64) -> Vec<u8> {
    let mut path = vec![0x02, 0x01, 0x0c, 0x00, marker, 0, 0, 0, 0, 0, 0, 0];
    path.extend_from_slice(&[0x04, 0x01, 42, 0]);
    path.extend_from_slice(&number.to_le_bytes());
    path.extend_from_slice(&start.to_le_bytes());
    path.extend_from_slice(&size.to_le_bytes());
    path.extend_from_slice(&[0x11; 16]);
    path.extend_from_slice(&[0x02, 0x02]);
    path.extend_from_slice(&[0x7f, 0xff, 0x04, 0x00]);
    path
}

fn identity(size: u64, partition_number: u16) -> SourceDiskIdentity {
    SourceDiskIdentity {
        disk_guid: [9; 16],
        disk_signature: [1, 2, 3, 4],
        disk_size: size,
        block_size: 512,
        partition_number,
        partition_start_lba: 2048,
        partition_size_blocks: 4096,
        partition_format: PartitionFormat::Gpt,
    }
}

#[test]
fn partitions_of_the_disk_are_found() {
    assert_eq!(
        exposed_child_partition(&disk_path(7), &partition_on(7, 1, 2048, 4096)),
        Some(PartitionRange { start_lba: 2048, block_count: 4096 })
    );
    assert_eq!(exposed_child_partition(&disk_path(7), &partition_on(8, 1, 2048, 4096)), None);
    assert_eq!(exposed_child_partition(&disk_path(7), &disk_path(7)), None);
}

#[test]
fn exposed_partitions_keep_the_order_of_the_devices() {
    let paths = vec![
        partition_on(7, 2, 8192, 100),
        partition_on(8, 1, 2048, 4096),
        disk_path(7),
        partition_on(7, 1, 2048, 4096),
    ];
    assert_eq!(exposed_child_partitions(&disk_path(7), &paths), vec![
        PartitionRange { start_lba: 8192, block_count: 100 },
        PartitionRange { start_lba: 2048, block_count: 4096 },
    ]);
    assert_eq!(exposed_child_partitions(&disk_path(9), &paths), Vec::new());
}

#[test]
fn raw_candidates_match_the_boot_disk_identity() {
    let boot = identity(1 << 30, 1);
    assert!(raw_scan_candidate_is_boot_media(Some(boot), Some(identity(1 << 30, 2)), true, false, None, None));
    assert!(!raw_scan_candidate_is_boot_media(Some(boot), Some(identity(1 << 31, 1)), true, true, None, None));
    assert!(!raw_scan_candidate_is_boot_media(Some(boot), None, true, true, None, None));
}

#[test]
fn raw_candidates_fall_back_to_device_paths() {
    let boot = partition_on(7, 1, 2048, 4096);
    let sibling = partition_on(7, 2, 8192, 4096);
    let other = partition_on(8, 1, 2048, 4096);
    assert!(raw_scan_candidate_is_boot_media(None, None, false, false, None, None));
    assert!(raw_scan_candidate_is_boot_media(None, None, true, true, None, None));
    assert!(raw_scan_candidate_is_boot_media(None, None, true, false, Some(&boot), Some(&sibling)));
    assert!(!raw_scan_candidate_is_boot_media(None, None, true, false, Some(&boot), Some(&other)));
    assert!(!raw_scan_candidate_is_boot_media(None, None, true, false, Some(&boot), None));
}
