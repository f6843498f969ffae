use nextboot_boot::scanner::common::{
    source_disk_size, should_scan_partition, extent_map, normalize_vlnk_target_path, partition_offset_matches, partition_source_disk_identity,
    should_descend_into_directory, vlnk_matches_partition, vlnk_matches_source_disk, volume_block_info,
    VlnkTarget, VolumeBlockInfo,
};
use nextboot_boot::scanner::helpers::{
    default_virtual_block_size, has_mbr_signature, offset_extents_for_physical_read, parse_vhd_footer, read_be_u32,
    read_be_u64,
};
use nextboot_boot::scanner::entries::{classify_entry, EntryAction, EntryKind, SearchLimits};
use nextboot_boot::scanner::model::{ImageFormat, IsoExtent, PartitionCandidate, PartitionRange};
use nextboot_boot::ventoy_config::VentoyConfig;
use nextboot_boot::source_disk::{PartitionFormat, SourceDiskIdentity};

#[test]
fn volume_geometry_from_media() {
    assert_eq!(volume_block_info(true, 512, 1023), Some(VolumeBlockInfo { block_size: 512, total_size: 512 * 1024 }));
    assert_eq!(volume_block_info(false, 512, 1023), None);
    assert_eq!(volume_block_info(true, 0, 1023), None);
    assert_eq!(volume_block_info(true, 512, u64::MAX), None);
    assert_eq!(volume_block_info(true, 4096, u64::MAX / 2), None);
}

#[test]
fn partition_identity_carries_the_partition() {
    let mut first = vec![0u8; 512];
    first[0x180..0x190].copy_from_slice(&[5; 16]);
    first[0x1b8..0x1bc].copy_from_slice(&[1, 2, 3, 4]);
    let volume = VolumeBlockInfo { block_size: 512, total_size: 1 << 30 };
    let partition = PartitionCandidate { number: 2, start_lba: 2048, block_count: 4096, format: PartitionFormat::Mbr };
    let id = partition_source_disk_identity(&first, volume, partition).expect("identity");
    assert_eq!(id.disk_guid, [5; 16]);
    assert_eq!(id.disk_signature, [1, 2, 3, 4]);
    assert_eq!(id.disk_size, 1 << 30);
    assert_eq!(id.partition_number, 2);
    assert_eq!(id.partition_start_lba, 2048);
    assert_eq!(id.partition_size_blocks, 4096);
    assert_eq!(id.partition_format, PartitionFormat::Mbr);
    let too_big = PartitionCandidate { number: 70_000, ..partition };
    assert_eq!(partition_source_disk_identity(&first, volume, too_big), None);
    assert_eq!(partition_source_disk_identity(&first[..0x1bb], volume, partition), None);
}

#[test]
fn link_files_match_by_signature_and_offset() {
    let disk = SourceDiskIdentity {
        disk_guid: [0; 16],
        disk_signature: [1, 2, 3, 4],
        disk_size: 1 << 30,
        block_size: 4096,
        partition_number: 1,
        partition_start_lba: 256,
        partition_size_blocks: 1000,
        partition_format: PartitionFormat::Mbr,
    };
    let native = VlnkTarget { disk_signature: [1, 2, 3, 4], part_offset_bytes: 256 * 4096 };
    let sectors = VlnkTarget { disk_signature: [1, 2, 3, 4], part_offset_bytes: 256 * 512 };
    let elsewhere = VlnkTarget { disk_signature: [1, 2, 3, 5], part_offset_bytes: 256 * 4096 };
    assert!(vlnk_matches_source_disk(Some(disk), &native));
    assert!(vlnk_matches_source_disk(Some(disk), &sectors));
    assert!(!vlnk_matches_source_disk(Some(disk), &elsewhere));
    assert!(!vlnk_matches_source_disk(None, &native));
    let partition = PartitionCandidate { number: 1, start_lba: 256, block_count: 10, format: PartitionFormat::Gpt };
    assert!(vlnk_matches_partition(partition, 4096, &native));
    assert!(!vlnk_matches_partition(partition, 4096, &VlnkTarget { disk_signature: [0; 4], part_offset_bytes: 1 }));
    assert!(partition_offset_matches(2, 512, 1024));
    assert!(!partition_offset_matches(u64::MAX, 512, 0));
}

#[test]
fn link_targets_are_canonical() {
    assert_eq!(normalize_vlnk_target_path("  ISO\\\\win//11.iso "), "/ISO/win/11.iso");
    assert_eq!(normalize_vlnk_target_path(""), "/");
    assert_eq!(normalize_vlnk_target_path("///a"), "/a");
    assert_eq!(normalize_vlnk_target_path("/a/"), "/a/");
}

#[test]
fn search_depth_limits() {
    assert!(should_descend_into_directory(5, None));
    assert!(should_descend_into_directory(1, Some(2)));
    assert!(!should_descend_into_directory(2, Some(2)));
}

#[test]
fn extents_map_to_triples() {
    let extents = [
        IsoExtent { virtual_block_start: 0, physical_lba: 100, block_count: 8 },
        IsoExtent { virtual_block_start: 8, physical_lba: 500, block_count: 4 },
    ];
    assert_eq!(extent_map(&extents), vec![(0, 100, 8), (8, 500, 4)]);
    let moved = offset_extents_for_physical_read(&extents, 2048).expect("moved");
    assert_eq!(moved[0].physical_lba, 2148);
    assert_eq!(moved[1].physical_lba, 2548);
    assert_eq!(moved[1].virtual_block_start, 8);
    let same = offset_extents_for_physical_read(&extents, 0).expect("same");
    assert_eq!(same, extents.to_vec());
    assert_eq!(offset_extents_for_physical_read(&extents, u64::MAX - 200), None);
}

#[test]
fn big_endian_reads_and_vhd_footers() {
    let data = [1u8, 2, 3, 4, 5, 6, 7, 8, 9];
    assert_eq!(read_be_u32(&data, 0), Some(0x0102_0304));
    assert_eq!(read_be_u32(&data, 5), Some(0x0607_0809));
    assert_eq!(read_be_u32(&data, 6), None);
    assert_eq!(read_be_u64(&data, 1), Some(0x0203_0405_0607_0809));
    assert_eq!(read_be_u64(&data, 2), None);
    assert_eq!(read_be_u64(&data, usize::MAX), None);

    let mut footer = vec![0u8; 512];
    footer[..8].copy_from_slice(b"conectix");
    footer[48..56].copy_from_slice(&(1u64 << 30).to_be_bytes());
    footer[60..64].copy_from_slice(&3u32.to_be_bytes());
    let info = parse_vhd_footer(&footer).expect("footer");
    assert_eq!(info.image_format, ImageFormat::DynamicVhd);
    assert_eq!(info.virtual_size, 1 << 30);
    footer[60..64].copy_from_slice(&2u32.to_be_bytes());
    assert_eq!(parse_vhd_footer(&footer).map(|f| f.image_format), Some(ImageFormat::FixedVhd));
    footer[48..56].copy_from_slice(&0u64.to_be_bytes());
    assert_eq!(parse_vhd_footer(&footer), None);
    assert_eq!(default_virtual_block_size(ImageFormat::Vdi), Some(512));
    assert_eq!(default_virtual_block_size(ImageFormat::Iso), None);
    let mut block = vec![0u8; 512];
    assert!(!has_mbr_signature(&block));
    block[510] = 0x55;
    block[511] = 0xaa;
    assert!(has_mbr_signature(&block));
}

#[test]
fn raw_partitions_are_scanned_unless_exposed_or_out_of_disk() {
    let p = PartitionCandidate { number: 1, start_lba: 2048, block_count: 4096, format: PartitionFormat::Gpt };
    assert!(should_scan_partition(p, &[], 10_000));
    assert!(!should_scan_partition(p, &[PartitionRange { start_lba: 2048, block_count: 4096 }], 10_000));
    assert!(should_scan_partition(p, &[PartitionRange { start_lba: 2048, block_count: 4095 }], 10_000));
    assert!(!should_scan_partition(p, &[], 6000));
    assert!(!should_scan_partition(PartitionCandidate { block_count: 0, ..p }, &[], 10_000));
    assert!(!should_scan_partition(PartitionCandidate { start_lba: u64::MAX, ..p }, &[], u64::MAX));
}

#[test]
fn recorded_disk_size_prefers_the_identity() {
    let volume = VolumeBlockInfo { block_size: 512, total_size: 4096 };
    assert_eq!(source_disk_size(None, Some(volume)), 4096);
    assert_eq!(source_disk_size(None, None), 0);
    let disk = SourceDiskIdentity {
        disk_guid: [0; 16],
        disk_signature: [0; 4],
        disk_size: 99,
        block_size: 512,
        partition_number: 0,
        partition_start_lba: 0,
        partition_size_blocks: 0,
        partition_format: PartitionFormat::Unknown,
    };
    assert_eq!(source_disk_size(Some(disk), Some(volume)), 99);
}

#[test]
fn directory_entries_are_classified() {
    let config = VentoyConfig::parse(br#"{"image_list":["/iso/a.iso"]}"#).expect("config");
    let plain = VentoyConfig::default();
    let file = EntryKind { is_dir: false, hidden_or_system: false, is_link_name: false };
    let dir = EntryKind { is_dir: true, hidden_or_system: false, is_link_name: false };
    let link = EntryKind { is_dir: false, hidden_or_system: false, is_link_name: true };
    let limits = SearchLimits { depth: 0, max_search_level: None, filter_dot_underscore: true };
    let exts = [".iso", ".wim"];
    let (action, path) = classify_entry("/iso", "a.iso", file, limits, &plain, &exts);
    assert_eq!(action, EntryAction::Image(ImageFormat::Iso));
    assert_eq!(path, "/iso/a.iso");
    assert_eq!(classify_entry("/iso", "a.iso", file, limits, &config, &exts).0, EntryAction::Image(ImageFormat::Iso));
    assert_eq!(classify_entry("/iso", "b.iso", file, limits, &config, &exts).0, EntryAction::Skip);
    assert_eq!(classify_entry("/", ".", dir, limits, &plain, &exts).0, EntryAction::Skip);
    assert_eq!(classify_entry("/", "..", dir, limits, &plain, &exts).0, EntryAction::Skip);
    assert_eq!(classify_entry("/", "iso", dir, limits, &plain, &exts).0, EntryAction::Descend);
    assert_eq!(classify_entry("/", "ventoy", dir, limits, &plain, &exts).0, EntryAction::Skip);
    let shallow = SearchLimits { depth: 2, max_search_level: Some(2), filter_dot_underscore: false };
    assert_eq!(classify_entry("/a/b", "c", dir, shallow, &plain, &exts).0, EntryAction::Skip);
    assert_eq!(classify_entry("/", "._a.iso", file, limits, &plain, &exts).0, EntryAction::Skip);
    assert_eq!(classify_entry("/", "._a.iso", file, shallow, &plain, &exts).0, EntryAction::Image(ImageFormat::Iso));
    assert_eq!(classify_entry("/", "notes.txt", file, limits, &plain, &exts).0, EntryAction::Skip);
    assert_eq!(classify_entry("/", "x.vlnk.iso", link, limits, &plain, &exts).0, EntryAction::Link);
    let hidden = EntryKind { is_dir: false, hidden_or_system: true, is_link_name: false };
    assert_eq!(classify_entry("/", "a.iso", hidden, limits, &plain, &exts).0, EntryAction::Skip);
    assert_eq!(classify_entry("/EFI/BOOT", "BOOTX64.EFI", file, limits, &plain, &[".efi"]).0, EntryAction::Skip);
}
