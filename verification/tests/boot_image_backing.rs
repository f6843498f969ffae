use nextboot_boot::boot::image_backing::{
    dynamic_vhd_layout, map_file_range, vdi_block_map_range, vdi_block_source, vhd_block_run, vhd_footer_offset,
    BlockSource, ByteSegment, VhdLayout,
};
use nextboot_boot::boot::vhd::DynamicHeader;
use nextboot_boot::boot::BootError;
use nextboot_boot::scanner::model::IsoExtent;
use nextboot_boot::vdi::VdiMetadata;

#[test]
fn file_ranges_follow_their_extents() {
    let extents = [
        IsoExtent { virtual_block_start: 0, physical_lba: 1000, block_count: 4 },
        IsoExtent { virtual_block_start: 4, physical_lba: 5000, block_count: 4 },
    ];
    let segments = map_file_range(&extents, 0, 512, 10_000, 1024, 2048).expect("segments");
    assert_eq!(
        segments,
        vec![
            ByteSegment { virtual_start: 10_000, len: 1024, physical_start: 1000 * 512 + 1024 },
            ByteSegment { virtual_start: 11_024, len: 1024, physical_start: 5000 * 512 },
        ]
    );
    assert_eq!(map_file_range(&extents, 0, 512, 0, 0, 0), Ok(vec![]));
    assert_eq!(map_file_range(&extents, 0, 512, 0, 4000, 200), Err(BootError::DeviceError));
    assert_eq!(map_file_range(&extents, 0, 0, 0, 0, 1), Err(BootError::InvalidParameter));
    assert_eq!(map_file_range(&extents, 0, 512, 0, u64::MAX, 2), Err(BootError::LoadError));
    let whole = map_file_range(&[], 64, 512, 7, 100, 50).expect("whole");
    assert_eq!(whole, vec![ByteSegment { virtual_start: 7, len: 50, physical_start: 64 * 512 + 100 }]);
    assert_eq!(map_file_range(&[], u64::MAX, 512, 7, 100, 50), Err(BootError::LoadError));
}

fn header(block_size: u32, max_table_entries: u32) -> DynamicHeader {
    DynamicHeader { table_offset: 1536, header_version: 0x0001_0000, max_table_entries, block_size }
}

#[test]
fn dynamic_vhd_layout_from_header() {
    let layout = dynamic_vhd_layout(header(2 << 20, 512), 100 << 20).expect("layout");
    assert_eq!(layout, VhdLayout { block_size: 2 << 20, bitmap_bytes: 512, entries: 50, bat_bytes: 512 });
    assert_eq!(dynamic_vhd_layout(header(2 << 20, 10), 100 << 20), Err(BootError::LoadError));
    assert_eq!(dynamic_vhd_layout(header(1000, 512), 100 << 20), Err(BootError::LoadError));
    assert_eq!(dynamic_vhd_layout(header(2 << 20, 512), 0), Err(BootError::LoadError));
    assert_eq!(vhd_footer_offset(1 << 20), Ok((1 << 20) - 512));
    assert_eq!(vhd_footer_offset(100), Err(BootError::LoadError));
}

#[test]
fn dynamic_vhd_blocks_come_from_their_table_entries() {
    let layout = VhdLayout { block_size: 4096, bitmap_bytes: 512, entries: 3, bat_bytes: 512 };
    let mut bat = vec![0xffu8; 512];
    bat[4..8].copy_from_slice(&10u32.to_be_bytes());
    bat[8..12].copy_from_slice(&100u32.to_be_bytes());
    assert_eq!(vhd_block_run(layout, &bat, 0, 10_000, 1 << 20), Ok(BlockSource::Zero));
    assert_eq!(
        vhd_block_run(layout, &bat, 1, 10_000, 1 << 20),
        Ok(BlockSource::File { virtual_start: 4096, file_offset: 10 * 512 + 512, byte_count: 4096 })
    );
    assert_eq!(
        vhd_block_run(layout, &bat, 2, 10_000, 1 << 20),
        Ok(BlockSource::File { virtual_start: 8192, file_offset: 100 * 512 + 512, byte_count: 10_000 - 8192 })
    );
    assert_eq!(vhd_block_run(layout, &bat, 2, 10_000, 50_000), Err(BootError::DeviceError));
    assert_eq!(vhd_block_run(layout, &bat, 1, 4096, 1 << 20), Ok(BlockSource::End));
    assert_eq!(vhd_block_run(layout, &bat, 200, 10_000, 1 << 20), Err(BootError::LoadError));
}

fn vdi(image_type: u32) -> VdiMetadata {
    VdiMetadata {
        image_type,
        virtual_disk_size: 2 << 20,
        block_size: 1 << 20,
        block_extra_size: 0,
        block_count: 2,
        blocks_allocated: 1,
        offset_blocks: 512,
        offset_data: 1024,
        sector_size: 512,
    }
}

#[test]
fn vdi_blocks_come_from_the_block_map() {
    assert_eq!(vdi_block_map_range(vdi(1), 4096), Ok((512, 8)));
    assert_eq!(vdi_block_map_range(VdiMetadata { offset_data: 515, ..vdi(1) }, 4096), Err(BootError::LoadError));
    let mut map = vec![0u8; 8];
    map[4..8].copy_from_slice(&0xffff_ffffu32.to_le_bytes());
    assert_eq!(
        vdi_block_source(vdi(1), &map, 0, 10 << 20, false),
        Ok(BlockSource::File { virtual_start: 0, file_offset: 1024, byte_count: 1 << 20 })
    );
    assert_eq!(vdi_block_source(vdi(1), &map, 1, 10 << 20, false), Ok(BlockSource::Zero));
    assert_eq!(
        vdi_block_source(vdi(4), &map, 1, 10 << 20, true),
        Ok(BlockSource::Parent { virtual_start: 1 << 20, byte_count: 1 << 20 })
    );
    assert_eq!(vdi_block_source(vdi(4), &map, 1, 10 << 20, false), Err(BootError::Unsupported));
    assert_eq!(vdi_block_source(vdi(1), &map, 2, 10 << 20, false), Ok(BlockSource::End));
    assert_eq!(vdi_block_source(vdi(1), &map, 0, 1000, false), Err(BootError::DeviceError));
    let mut bad = map.clone();
    bad[0..4].copy_from_slice(&1u32.to_le_bytes());
    assert_eq!(vdi_block_source(vdi(1), &bad, 0, 10 << 20, false), Err(BootError::LoadError));
}
