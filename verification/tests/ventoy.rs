use nextboot_boot::ventoy::{
    build_ventoy_image_location, build_ventoy_image_regions, build_ventoy_os_param, ventoy_guid_bytes, VentoyExtent,
    VentoyImageRegion, VentoyOsParamInput, VentoyParamError, OS_PARAM_DISK_GUID_OFFSET, OS_PARAM_DISK_SIGNATURE_OFFSET,
    OS_PARAM_IMAGE_LOCATION_ADDR_OFFSET, OS_PARAM_IMAGE_PATH_OFFSET, VENTOY_IMAGE_LOCATION_HEADER_SIZE,
    VENTOY_IMAGE_LOCATION_REGION_SIZE, VENTOY_OS_PARAM_SIZE, VENTOY_PART_TYPE_EXFAT,
};

fn sample_input(path: &str) -> VentoyOsParamInput<'_> {
    VentoyOsParamInput {
        disk_guid: [0x11; 16],
        disk_size: 0x1122_3344_5566_7788,
        disk_part_id: 2,
        disk_part_type: VENTOY_PART_TYPE_EXFAT,
        image_path: path,
        image_size: 0x8877_6655_4433_2211,
        image_location_addr: 0x1234_5000,
        image_location_len: 44,
        reserved: [1, 2, 3, 4],
        disk_signature: [0xaa, 0xbb, 0xcc, 0xdd],
    }
}

#[test]
fn builds_os_param_with_checksum_and_expected_offsets() {
    let input = sample_input("/iso/win11.iso");

    let data = build_ventoy_os_param(&input).expect("os param");

    assert_eq!(data.len(), VENTOY_OS_PARAM_SIZE);
    assert_eq!(&data[..16], &ventoy_guid_bytes());
    assert_eq!(data.iter().copied().fold(0u8, |sum, byte| sum.wrapping_add(byte)), 0);
    assert_eq!(&data[OS_PARAM_DISK_GUID_OFFSET..OS_PARAM_DISK_GUID_OFFSET + 16], &[0x11; 16]);
    assert_eq!(&data[OS_PARAM_IMAGE_PATH_OFFSET..OS_PARAM_IMAGE_PATH_OFFSET + 14], b"/iso/win11.iso");
    assert_eq!(
        u64::from_le_bytes(
            data[OS_PARAM_IMAGE_LOCATION_ADDR_OFFSET..OS_PARAM_IMAGE_LOCATION_ADDR_OFFSET + 8].try_into().unwrap()
        ),
        0x1234_5000
    );
    assert_eq!(&data[OS_PARAM_DISK_SIGNATURE_OFFSET..OS_PARAM_DISK_SIGNATURE_OFFSET + 4], &[0xaa, 0xbb, 0xcc, 0xdd]);
}

#[test]
fn builds_image_location_from_4k_extents() {
    let extents = [VentoyExtent { virtual_block_start: 2, physical_lba: 100, block_count: 3 }];
    let regions = build_ventoy_image_regions(&extents, 4096, 2048).expect("regions");
    let data = build_ventoy_image_location(2048, 4096, &regions).expect("location");

    assert_eq!(regions[0].image_start_sector, 4);
    assert_eq!(regions[0].image_sector_count, 6);
    assert_eq!(regions[0].disk_start_sector, 100);
    assert_eq!(data.len(), VENTOY_IMAGE_LOCATION_HEADER_SIZE + VENTOY_IMAGE_LOCATION_REGION_SIZE);
    assert_eq!(&data[..16], &ventoy_guid_bytes());
    assert_eq!(u32::from_le_bytes(data[16..20].try_into().unwrap()), 2048);
    assert_eq!(u32::from_le_bytes(data[20..24].try_into().unwrap()), 4096);
    assert_eq!(u32::from_le_bytes(data[24..28].try_into().unwrap()), 1);
}

#[test]
fn rejects_unaligned_2048_regions() {
    let extents = [VentoyExtent { virtual_block_start: 1, physical_lba: 8, block_count: 1 }];

    let err = build_ventoy_image_regions(&extents, 512, 2048).expect_err("unaligned");

    assert_eq!(err, VentoyParamError::UnalignedExtent);
}

#[test]
fn os_param_rejects_path_longer_than_its_field() {
    let long = "a".repeat(385);
    assert_eq!(build_ventoy_os_param(&sample_input(&long)), Err(VentoyParamError::PathTooLong));
    let fits = "a".repeat(384);
    let data = build_ventoy_os_param(&sample_input(&fits)).expect("os param");
    assert_eq!(data[OS_PARAM_IMAGE_PATH_OFFSET + 383], b'a');
    assert_eq!(data[OS_PARAM_IMAGE_PATH_OFFSET + 384], 0x11);
}

#[test]
fn os_param_checksum_balances_every_input() {
    for path in ["", "/a.iso", "/\u{5de5}.iso"] {
        let data = build_ventoy_os_param(&sample_input(path)).expect("os param");
        assert_eq!(data.iter().fold(0u8, |sum, byte| sum.wrapping_add(*byte)), 0);
    }
}

#[test]
fn os_param_places_every_field() {
    let data = build_ventoy_os_param(&sample_input("/x")).expect("os param");
    assert_eq!(u64::from_le_bytes(data[33..41].try_into().unwrap()), 0x1122_3344_5566_7788);
    assert_eq!(u16::from_le_bytes(data[41..43].try_into().unwrap()), 2);
    assert_eq!(u16::from_le_bytes(data[43..45].try_into().unwrap()), VENTOY_PART_TYPE_EXFAT);
    assert_eq!(u64::from_le_bytes(data[429..437].try_into().unwrap()), 0x8877_6655_4433_2211);
    assert_eq!(u32::from_le_bytes(data[445..449].try_into().unwrap()), 44);
    for (index, value) in [1u64, 2, 3, 4].iter().enumerate() {
        let at = 449 + index * 8;
        assert_eq!(u64::from_le_bytes(data[at..at + 8].try_into().unwrap()), *value);
    }
    assert!(data[485..].iter().all(|b| *b == 0));
}

#[test]
fn regions_reject_zero_sector_sizes() {
    assert_eq!(build_ventoy_image_regions(&[], 0, 512), Err(VentoyParamError::InvalidSectorSize));
    assert_eq!(build_ventoy_image_regions(&[], 512, 0), Err(VentoyParamError::InvalidSectorSize));
    assert_eq!(build_ventoy_image_location(0, 512, &[]), Err(VentoyParamError::InvalidSectorSize));
    assert_eq!(build_ventoy_image_location(512, 0, &[]), Err(VentoyParamError::InvalidSectorSize));
}

#[test]
fn regions_reject_values_out_of_range() {
    let huge = [VentoyExtent { virtual_block_start: u64::MAX, physical_lba: 0, block_count: 1 }];
    assert_eq!(build_ventoy_image_regions(&huge, 2, 512), Err(VentoyParamError::ValueOutOfRange));
    let too_many_sectors = [VentoyExtent { virtual_block_start: 0, physical_lba: 0, block_count: 1 << 33 }];
    assert_eq!(build_ventoy_image_regions(&too_many_sectors, 512, 512), Err(VentoyParamError::ValueOutOfRange));
}

#[test]
fn regions_report_the_first_failing_extent() {
    let extents = [
        VentoyExtent { virtual_block_start: 0, physical_lba: 1, block_count: 4 },
        VentoyExtent { virtual_block_start: 1, physical_lba: 2, block_count: 1 },
        VentoyExtent { virtual_block_start: u64::MAX, physical_lba: 3, block_count: 1 },
    ];
    assert_eq!(build_ventoy_image_regions(&extents, 512, 2048), Err(VentoyParamError::UnalignedExtent));
}

#[test]
fn image_location_lists_every_region() {
    let regions = [
        VentoyImageRegion { image_sector_count: 1, image_start_sector: 2, disk_start_sector: 3 },
        VentoyImageRegion { image_sector_count: 4, image_start_sector: 5, disk_start_sector: 6 },
    ];
    let data = build_ventoy_image_location(512, 512, &regions).expect("location");
    assert_eq!(data.len(), 28 + 32);
    assert_eq!(u32::from_le_bytes(data[24..28].try_into().unwrap()), 2);
    assert_eq!(u32::from_le_bytes(data[44..48].try_into().unwrap()), 4);
    assert_eq!(u32::from_le_bytes(data[48..52].try_into().unwrap()), 5);
    assert_eq!(u64::from_le_bytes(data[52..60].try_into().unwrap()), 6);
}
