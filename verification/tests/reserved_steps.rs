use nextboot_boot::boot::chain_load::{LoadOptionsBuffer, LoadOptionsError};
use nextboot_boot::boot::os_param::{
    build_os_param_payload, fill_os_param_payload, fill_ventoy_source_extents, OsParamDevice, OsParamImage,
    VirtualDeviceType,
};
use nextboot_boot::boot::BootError;
use nextboot_boot::scanner::model::{IsoExtent, OsType, PartitionCandidate, PartitionRange};
use nextboot_boot::scanner::partitions::{gpt_scan_step, primary_entry_step, read_gpt_entry_candidate};
use nextboot_boot::source_disk::PartitionFormat;
use nextboot_boot::ventoy::{
    build_ventoy_image_location, fill_ventoy_image_location, fill_ventoy_image_regions, VentoyExtent,
    VentoyImageRegion, VentoyParamError,
};

#[test]
fn filled_regions_match_the_built_ones() {
    let extents = [VentoyExtent { virtual_block_start: 2, physical_lba: 100, block_count: 3 }];
    let regions = fill_ventoy_image_regions(Vec::new(), &extents, 4096, 2048).expect("regions");
    assert_eq!(regions, vec![VentoyImageRegion { image_sector_count: 6, image_start_sector: 4, disk_start_sector: 100 }]);
    let odd = [VentoyExtent { virtual_block_start: 1, physical_lba: 8, block_count: 1 }];
    assert_eq!(fill_ventoy_image_regions(Vec::new(), &odd, 512, 2048), Err(VentoyParamError::UnalignedExtent));
    let location = fill_ventoy_image_location(Vec::new(), 2048, 4096, &regions).expect("location");
    assert_eq!(location, build_ventoy_image_location(2048, 4096, &regions).expect("built"));
}

#[test]
fn filled_source_extents_move_to_the_disk() {
    let extents = [IsoExtent { virtual_block_start: 0, physical_lba: 100, block_count: 8 }];
    assert_eq!(
        fill_ventoy_source_extents(Vec::new(), &extents, 4096, 512, 100, 2048),
        Ok(vec![VentoyExtent { virtual_block_start: 0, physical_lba: 2148, block_count: 8 }])
    );
    assert_eq!(fill_ventoy_source_extents(Vec::new(), &[], 1000, 0, 64, 2048), Err(BootError::InvalidParameter));
    assert_eq!(fill_ventoy_source_extents(Vec::new(), &extents, 1, 512, 0, u64::MAX), Err(BootError::OutOfResources));
}

#[test]
fn filled_payload_matches_the_built_one() {
    let image = OsParamImage {
        volume_index: 3,
        os_type: OsType::Windows,
        virtual_size: 10_000,
        start_lba: 77,
        block_size: 512,
        has_el_torito: true,
    };
    let device = OsParamDevice { device_type: VirtualDeviceType::DvdRom, block_size: 2048, physical_block_size: 512 };
    let extents = [IsoExtent { virtual_block_start: 0, physical_lba: 100, block_count: 8 }];
    assert_eq!(
        fill_os_param_payload(Vec::new(), "/iso/a.iso", image, &extents, device),
        build_os_param_payload("/iso/a.iso", image, &extents, device)
    );
    let no_blocks = OsParamImage { block_size: 0, ..image };
    assert_eq!(fill_os_param_payload(Vec::new(), "/a.img", no_blocks, &[], device), Err(BootError::InvalidParameter));
}

#[test]
fn load_options_encode_into_reserved_buffer() {
    let options = LoadOptionsBuffer::encode_into(Vec::new(), "a\u{1F600}").expect("options");
    assert_eq!(options.units(), &[0x61, 0xd83d, 0xde00, 0]);
    assert_eq!(options.size_bytes(), 8);
    assert_eq!(LoadOptionsBuffer::new("a\0").err(), Some(LoadOptionsError::InvalidParameter));
}

fn gpt_entry(start: u64, end: u64) -> Vec<u8> {
    let mut entry = vec![0u8; 128];
    entry[0] = 0xaf;
    entry[32..40].copy_from_slice(&start.to_le_bytes());
    entry[40..48].copy_from_slice(&end.to_le_bytes());
    entry
}

#[test]
fn gpt_steps_add_partitions_only_with_room() {
    let mut bytes = gpt_entry(2048, 4095);
    bytes.extend(vec![0u8; 128]);
    let first = read_gpt_entry_candidate(&bytes, 0, 128);
    let c = PartitionCandidate { number: 1, start_lba: 2048, block_count: 2048, format: PartitionFormat::Gpt };
    assert_eq!(first, Some(c));
    assert_eq!(read_gpt_entry_candidate(&bytes, 1, 128), None);
    let mut out = Vec::new();
    assert!(!gpt_scan_step(&mut out, first, false));
    assert!(out.is_empty());
    assert!(gpt_scan_step(&mut out, first, true));
    assert_eq!(out, vec![c]);
    assert!(gpt_scan_step(&mut out, None, false));
    assert_eq!(out.len(), 1);
}

fn mbr_with(entries: &[(u8, u32, u32)]) -> Vec<u8> {
    let mut block = vec![0u8; 512];
    for (i, (kind, start, count)) in entries.iter().enumerate() {
        let off = 0x1be + 16 * i;
        block[off + 4] = *kind;
        block[off + 8..off + 12].copy_from_slice(&start.to_le_bytes());
        block[off + 12..off + 16].copy_from_slice(&count.to_le_bytes());
    }
    block[510] = 0x55;
    block[511] = 0xaa;
    block
}

#[test]
fn primary_steps_follow_the_reservation() {
    let block = mbr_with(&[(0x07, 2048, 100), (0x05, 4096, 1000)]);
    let mut candidates = Vec::new();
    let mut extended = Vec::new();
    let mut stopped = false;
    primary_entry_step(&mut candidates, &mut extended, &mut stopped, &block, 1, false);
    assert!(extended.is_empty() && !stopped);
    primary_entry_step(&mut candidates, &mut extended, &mut stopped, &block, 1, true);
    assert_eq!(extended, vec![PartitionRange { start_lba: 4096, block_count: 1000 }]);
    primary_entry_step(&mut candidates, &mut extended, &mut stopped, &block, 0, false);
    assert!(candidates.is_empty() && stopped);
    let mut candidates = Vec::new();
    let mut stopped = false;
    primary_entry_step(&mut candidates, &mut extended, &mut stopped, &block, 0, true);
    assert_eq!(candidates, vec![PartitionCandidate {
        number: 1,
        start_lba: 2048,
        block_count: 100,
        format: PartitionFormat::Mbr
    }]);
}
