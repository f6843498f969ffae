use nextboot_boot::source_disk::{
    build_source_disk_identity, parent_device_path_bytes, parse_last_hard_drive_device_path, source_volume_range,
    HardDriveDevicePathInfo, PartitionFormat, SourceDiskIdentity, DEVICE_PATH_SUBTYPE_HARD_DRIVE, DEVICE_PATH_TYPE_MEDIA,
    HARD_DRIVE_DEVICE_PATH_LEN, VENTOY_DISK_GUID_OFFSET, VENTOY_DISK_SIGNATURE_OFFSET,
};

const DEVICE_PATH_END_ENTIRE: [u8; 4] = [0x7f, 0xff, 0x04, 0x00];

fn hard_drive_path() -> Vec<u8> {
    let mut path = Vec::new();
    path.extend_from_slice(&[0x02, 0x01, 0x0c, 0x00, 0xaa, 0xbb, 0, 0, 0, 0, 0, 0]);
    path.extend_from_slice(&[DEVICE_PATH_TYPE_MEDIA, DEVICE_PATH_SUBTYPE_HARD_DRIVE, HARD_DRIVE_DEVICE_PATH_LEN as u8, 0x00]);
    path.extend_from_slice(&3u32.to_le_bytes());
    path.extend_from_slice(&2048u64.to_le_bytes());
    path.extend_from_slice(&4096u64.to_le_bytes());
    path.extend_from_slice(&[0x11; 16]);
    path.push(0x02);
    path.push(0x02);
    path.extend_from_slice(&DEVICE_PATH_END_ENTIRE);
    path
}

fn source_identity(start_lba: u64, blocks: u64) -> SourceDiskIdentity {
    SourceDiskIdentity {
        disk_guid: [0x42; 16],
        disk_signature: [0xaa, 0xbb, 0xcc, 0xdd],
        disk_size: 0,
        block_size: 512,
        partition_number: 1,
        partition_start_lba: start_lba,
        partition_size_blocks: blocks,
        partition_format: PartitionFormat::Gpt,
    }
}

#[test]
fn parses_hard_drive_node_and_parent_path() {
    let path = hard_drive_path();

    let info = parse_last_hard_drive_device_path(&path).expect("hard drive node");
    let parent = parent_device_path_bytes(&path, &info).expect("parent path");

    assert_eq!(info.node_offset, 12);
    assert_eq!(info.partition_number, 3);
    assert_eq!(info.partition_start_lba, 2048);
    assert_eq!(info.partition_size_blocks, 4096);
    assert_eq!(info.partition_format, PartitionFormat::Gpt);
    assert_eq!(&parent[..12], &path[..12]);
    assert_eq!(&parent[12..], &DEVICE_PATH_END_ENTIRE);
}

#[test]
fn builds_identity_from_ventoy_disk_offsets() {
    let mut first_block = [0u8; 512];
    first_block[VENTOY_DISK_GUID_OFFSET..VENTOY_DISK_GUID_OFFSET + 16].copy_from_slice(&[0x42; 16]);
    first_block[VENTOY_DISK_SIGNATURE_OFFSET..VENTOY_DISK_SIGNATURE_OFFSET + 4].copy_from_slice(&[0xde, 0xad, 0xbe, 0xef]);
    let info = HardDriveDevicePathInfo {
        node_offset: 12,
        partition_number: 2,
        partition_start_lba: 4096,
        partition_size_blocks: 8192,
        partition_format: PartitionFormat::Mbr,
        signature_type: 1,
    };

    let identity = build_source_disk_identity(&first_block, 128 * 1024 * 1024, 512, Some(info)).expect("identity");

    assert_eq!(identity.disk_guid, [0x42; 16]);
    assert_eq!(identity.disk_signature, [0xde, 0xad, 0xbe, 0xef]);
    assert_eq!(identity.partition_number, 2);
    assert_eq!(identity.partition_start_lba, 4096);
    assert_eq!(identity.partition_format, PartitionFormat::Mbr);
}

#[test]
fn source_volume_range_uses_parent_disk_partition_offset() {
    assert_eq!(source_volume_range(20_000, Some(source_identity(2048, 4096))), Some((2048, 4096)));
}

#[test]
fn source_volume_range_accepts_partition_relative_child_block_io() {
    assert_eq!(source_volume_range(4096, Some(source_identity(2048, 4096))), Some((0, 4096)));
}

#[test]
fn source_volume_range_uses_whole_device_without_partition_identity() {
    assert_eq!(source_volume_range(8192, None), Some((0, 8192)));
}

#[test]
fn source_volume_range_rejects_inconsistent_partition_identity() {
    assert_eq!(source_volume_range(4095, Some(source_identity(2048, 4096))), None);
}

#[test]
fn source_volume_range_treats_empty_partition_as_whole_device() {
    assert_eq!(source_volume_range(100, Some(source_identity(5, 0))), Some((0, 100)));
}

#[test]
fn device_path_without_end_node_has_no_hard_drive() {
    let mut path = hard_drive_path();
    path.truncate(path.len() - 4);
    assert_eq!(parse_last_hard_drive_device_path(&path), None);
}

#[test]
fn device_path_with_short_node_is_rejected() {
    assert_eq!(parse_last_hard_drive_device_path(&[0x02, 0x01, 0x02, 0x00, 0x7f, 0xff, 0x04, 0x00]), None);
}

#[test]
fn identity_needs_the_signature_bytes() {
    assert!(build_source_disk_identity(&[0u8; 443], 0, 512, None).is_none());
    let identity = build_source_disk_identity(&[0u8; 444], 7, 512, None).expect("identity");
    assert_eq!(identity.partition_number, 0);
    assert_eq!(identity.partition_format, PartitionFormat::Unknown);
    assert_eq!(identity.disk_size, 7);
}

#[test]
fn identity_rejects_partition_number_beyond_u16() {
    let info = HardDriveDevicePathInfo {
        node_offset: 0,
        partition_number: 0x1_0000,
        partition_start_lba: 0,
        partition_size_blocks: 1,
        partition_format: PartitionFormat::Gpt,
        signature_type: 2,
    };
    assert!(build_source_disk_identity(&[0u8; 512], 0, 512, Some(info)).is_none());
}

#[test]
fn parent_path_rejects_offset_past_end() {
    let info = HardDriveDevicePathInfo {
        node_offset: 99,
        partition_number: 1,
        partition_start_lba: 0,
        partition_size_blocks: 1,
        partition_format: PartitionFormat::Gpt,
        signature_type: 2,
    };
    assert!(parent_device_path_bytes(&[0u8; 10], &info).is_none());
}
