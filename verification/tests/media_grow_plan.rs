use nextboot_boot::bytes::{read_le_u32, read_le_u64};
use nextboot_boot::media_grow::{parse_gpt_header, plan_exfat_growth, update_primary_header, write_le_u32, write_le_u64};
use nextboot_boot::media_grow::exfat::{
    bitmap_chain_start, bitmap_chain_step, check_bitmap_chain, exfat_bitmap_geometry, exfat_cluster_lba,
    exfat_fat_entry, exfat_fat_entry_location, find_bitmap_entry, root_walk_start, root_walk_step, BitmapChainWalk,
    ChainStep, RootWalk,
};
use nextboot_boot::media_grow::{
    check_gpt_entry_crc, crc32, gpt_entry_array_sectors, is_release_mbr, plan_growth_window, plan_growth_writes,
    prepare_gpt_growth, release_media_geometry, ExfatGrowth, GptInfo, GrowthWindow, MediaGeometry, PartitionInfo,
};

fn gpt(entry_count: usize, entry_size: usize) -> GptInfo {
    GptInfo { old_backup_lba: 1000, last_usable_lba: 966, entry_lba: 2, entry_count, entry_size }
}

#[test]
fn only_writable_whole_disks_with_common_block_sizes_grow() {
    assert_eq!(
        release_media_geometry(true, false, false, 512, 999),
        Ok(Some(MediaGeometry { block_size: 512, total_blocks: 1000, last_lba: 999 }))
    );
    assert_eq!(release_media_geometry(true, false, false, 4096, 7), Ok(Some(MediaGeometry {
        block_size: 4096,
        total_blocks: 8,
        last_lba: 7
    })));
    assert_eq!(release_media_geometry(false, false, false, 512, 999), Ok(None));
    assert_eq!(release_media_geometry(true, true, false, 512, 999), Ok(None));
    assert_eq!(release_media_geometry(true, false, true, 512, 999), Ok(None));
    assert_eq!(release_media_geometry(true, false, false, 2048, 999), Ok(None));
    assert_eq!(release_media_geometry(true, false, false, 512, u64::MAX), Err("invalid media block count"));
}

#[test]
fn release_mbr_needs_signature_and_gpt_guard() {
    let mut mbr = vec![0u8; 512];
    assert!(!is_release_mbr(&mbr));
    mbr[510] = 0x55;
    mbr[511] = 0xaa;
    assert!(!is_release_mbr(&mbr));
    mbr[0x1be + 4] = 0xee;
    assert!(is_release_mbr(&mbr));
    assert!(!is_release_mbr(&mbr[..511]));
}

#[test]
fn entry_array_sectors_round_up() {
    assert_eq!(gpt_entry_array_sectors(gpt(128, 128), 512), Ok(Some(32)));
    assert_eq!(gpt_entry_array_sectors(gpt(128, 128), 4096), Ok(Some(4)));
    assert_eq!(gpt_entry_array_sectors(gpt(3, 128), 512), Ok(Some(1)));
    assert_eq!(gpt_entry_array_sectors(gpt(0, 128), 512), Ok(None));
    assert_eq!(gpt_entry_array_sectors(gpt(usize::MAX, 128), 512), Err("GPT entry array is too large"));
}

#[test]
fn entry_crc_is_checked_against_the_header() {
    let entries = vec![7u8; 256];
    let mut header = vec![0u8; 92];
    header[88..92].copy_from_slice(&crc32(&entries).to_le_bytes());
    assert_eq!(check_gpt_entry_crc(&header, &entries, gpt(2, 128)), Ok(()));
    let mut bigger = entries.clone();
    bigger.extend_from_slice(&[1, 2, 3]);
    assert_eq!(check_gpt_entry_crc(&header, &bigger, gpt(2, 128)), Ok(()));
    assert_eq!(check_gpt_entry_crc(&header, &entries[..255], gpt(2, 128)), Err("truncated GPT entries"));
    assert_eq!(check_gpt_entry_crc(&header[..91], &entries, gpt(2, 128)), Err("missing GPT entry CRC"));
    let mut other = entries.clone();
    other[0] = 8;
    assert_eq!(check_gpt_entry_crc(&header, &other, gpt(2, 128)), Err("GPT entry CRC mismatch"));
}

#[test]
fn growth_window_leaves_room_for_the_backup_gpt() {
    let data = PartitionInfo { index: 1, start_lba: 100, end_lba: 500 };
    assert_eq!(
        plan_growth_window(9999, 32, data),
        Ok(Some(GrowthWindow { backup_entries_lba: 9967, new_last_usable_lba: 9966, available_blocks: 9867 }))
    );
    assert_eq!(plan_growth_window(20, 32, data), Err("media is too small for backup GPT"));
    assert_eq!(plan_growth_window(32, 32, data), Err("media is too small for usable GPT range"));
    assert_eq!(plan_growth_window(133, 32, data), Ok(None));
}

#[test]
fn growth_writes_only_what_moves() {
    let data = PartitionInfo { index: 1, start_lba: 100, end_lba: 4195 };
    let window = GrowthWindow { backup_entries_lba: 9967, new_last_usable_lba: 9966, available_blocks: 9867 };
    let info = GptInfo { old_backup_lba: 9999, last_usable_lba: 9966, entry_lba: 2, entry_count: 128, entry_size: 128 };
    let same = ExfatGrowth { old_blocks: 4096, new_blocks: 4096, cluster_count: 100 };
    assert_eq!(plan_growth_writes(info, data, 9999, window, same), Ok(None));
    let grown = ExfatGrowth { old_blocks: 4096, new_blocks: 9000, cluster_count: 1000 };
    let writes = plan_growth_writes(info, data, 9999, window, grown).expect("ok").expect("writes");
    assert!(writes.needs_gpt);
    assert!(writes.needs_exfat);
    assert_eq!(writes.new_data_end, 9099);
    let moved = GptInfo { old_backup_lba: 5000, ..info };
    let writes = plan_growth_writes(moved, data, 9999, window, same).expect("ok").expect("writes");
    assert!(writes.needs_gpt);
    assert!(!writes.needs_exfat);
    let shrunk = ExfatGrowth { old_blocks: 4096, new_blocks: 1000, cluster_count: 10 };
    assert_eq!(
        plan_growth_writes(info, data, 9999, window, shrunk),
        Err("existing NEXTDATA is larger than growable exFAT capacity")
    );
    let huge = ExfatGrowth { old_blocks: 4096, new_blocks: u64::MAX, cluster_count: 10 };
    assert_eq!(plan_growth_writes(info, data, 9999, window, huge), Err("expanded partition overflows"));
    let zero = PartitionInfo { index: 1, start_lba: 0, end_lba: 0 };
    let empty = ExfatGrowth { old_blocks: 0, new_blocks: 0, cluster_count: 0 };
    assert_eq!(plan_growth_writes(info, zero, 9999, window, empty), Err("expanded partition overflows"));
}

#[test]
fn gpt_growth_moves_the_end_and_sizes_the_mbr() {
    let mut mbr = vec![0u8; 512];
    let mut entries = vec![0u8; 512];
    let crc = prepare_gpt_growth(&mut mbr, &mut entries, gpt(2, 128), 1, 9099, 10_000).expect("crc");
    assert_eq!(&entries[128 + 40..128 + 48], &9099u64.to_le_bytes());
    assert_eq!(crc, crc32(&entries[..256]));
    assert_eq!(&mbr[0x1be + 12..0x1be + 16], &9999u32.to_le_bytes());
    let crc = prepare_gpt_growth(&mut mbr, &mut entries, gpt(2, 128), 1, 9099, 1 << 40).expect("crc");
    assert_eq!(crc, crc32(&entries[..256]));
    assert_eq!(&mbr[0x1be + 12..0x1be + 16], &u32::MAX.to_le_bytes());
    let mut short_mbr = vec![0u8; 100];
    assert_eq!(
        prepare_gpt_growth(&mut short_mbr, &mut entries, gpt(2, 128), 1, 9099, 10_000),
        Err("write is out of bounds")
    );
    let mut few = vec![0u8; 200];
    assert_eq!(
        prepare_gpt_growth(&mut mbr, &mut few, gpt(2, 128), 0, 9099, 10_000),
        Err("truncated GPT entries")
    );
    assert_eq!(&few[40..48], &9099u64.to_le_bytes());
}

fn exfat_boot() -> Vec<u8> {
    let mut b = vec![0u8; 512];
    b[80..84].copy_from_slice(&24u32.to_le_bytes());
    b[84..88].copy_from_slice(&64u32.to_le_bytes());
    b[88..92].copy_from_slice(&128u32.to_le_bytes());
    b[92..96].copy_from_slice(&1000u32.to_le_bytes());
    b[96..100].copy_from_slice(&5u32.to_le_bytes());
    b[108] = 9;
    b[109] = 3;
    b
}

#[test]
fn bitmap_geometry_sizes_the_grown_bitmap() {
    let g = exfat_bitmap_geometry(&exfat_boot(), 512, 70_000).expect("geometry");
    assert_eq!(g.sectors_per_cluster, 8);
    assert_eq!(g.fat_offset, 24);
    assert_eq!(g.cluster_heap_offset, 128);
    assert_eq!(g.old_cluster_count, 1000);
    assert_eq!(g.root_cluster, 5);
    assert_eq!(g.cluster_bytes, 4096);
    assert_eq!(g.required_bitmap_bytes, 8750);
    assert_eq!(g.required_bitmap_clusters, 3);
}

#[test]
fn bitmap_geometry_errors() {
    assert_eq!(exfat_bitmap_geometry(&exfat_boot()[..100], 512, 1), Err("missing exFAT sector shift"));
    assert_eq!(exfat_bitmap_geometry(&exfat_boot(), 4096, 1), Err("exFAT sector size does not match media"));
    let mut bad = exfat_boot();
    bad[108] = 64;
    assert_eq!(exfat_bitmap_geometry(&bad, 512, 1), Err("invalid exFAT sector shift"));
    let mut bad = exfat_boot();
    bad[109] = 70;
    assert_eq!(exfat_bitmap_geometry(&bad, 512, 1), Err("invalid exFAT cluster shift"));
    let mut bad = exfat_boot();
    bad[80..84].copy_from_slice(&23u32.to_le_bytes());
    assert_eq!(exfat_bitmap_geometry(&bad, 512, 1), Err("invalid exFAT bitmap growth geometry"));
    let mut bad = exfat_boot();
    bad[96..100].copy_from_slice(&1002u32.to_le_bytes());
    assert_eq!(exfat_bitmap_geometry(&bad, 512, 1), Err("invalid exFAT bitmap growth geometry"));
    let mut bad = exfat_boot();
    bad[109] = 60;
    assert_eq!(exfat_bitmap_geometry(&bad, 512, 1), Err("exFAT cluster size overflows"));
}

#[test]
fn clusters_and_fat_entries_are_placed() {
    let data = PartitionInfo { index: 1, start_lba: 1000, end_lba: 9000 };
    let g = exfat_bitmap_geometry(&exfat_boot(), 512, 70_000).expect("geometry");
    assert_eq!(exfat_cluster_lba(data, g, 2), Ok(1128));
    assert_eq!(exfat_cluster_lba(data, g, 5), Ok(1152));
    let far = PartitionInfo { index: 1, start_lba: u64::MAX - 10, end_lba: 0 };
    assert_eq!(exfat_cluster_lba(far, g, 2), Err("exFAT root cluster offset overflows"));
    assert_eq!(exfat_fat_entry_location(5, 512, data, 24), Ok((1024, 20)));
    assert_eq!(exfat_fat_entry_location(200, 512, data, 24), Ok((1025, 288)));
    assert_eq!(exfat_fat_entry_location(5, 512, far, 24), Err("exFAT FAT sector offset overflows"));
    let mut sector = vec![0u8; 512];
    sector[20..24].copy_from_slice(&6u32.to_le_bytes());
    assert_eq!(exfat_fat_entry(&sector, 20), Ok(6));
    assert_eq!(exfat_fat_entry(&sector, 510), Err("truncated exFAT FAT entry"));
}

#[test]
fn bitmap_entry_is_found_before_the_end_marker() {
    let mut dir = vec![0u8; 4096];
    dir[0] = 0x83;
    dir[32] = 0x81;
    dir[32 + 20..32 + 24].copy_from_slice(&3u32.to_le_bytes());
    dir[32 + 24..32 + 32].copy_from_slice(&125u64.to_le_bytes());
    let entry = find_bitmap_entry(&dir).expect("ok").expect("entry");
    assert_eq!(entry.offset, 32);
    assert_eq!(entry.first_cluster, 3);
    assert_eq!(entry.length, 125);

    let mut ended = dir.clone();
    ended[32] = 0;
    assert_eq!(find_bitmap_entry(&ended), Ok(None));
    assert_eq!(find_bitmap_entry(&dir[..40]), Err("truncated exFAT allocation bitmap"));
    let mut none = vec![0x85u8; 96];
    none[64] = 0x85;
    assert_eq!(find_bitmap_entry(&none), Ok(None));
}

#[test]
fn chain_walks_follow_and_bound_their_links() {
    let g = exfat_bitmap_geometry(&exfat_boot(), 512, 70_000).expect("geometry");
    let walk = root_walk_start(g).expect("start");
    assert_eq!(walk, RootWalk { current: 5, steps: 1 });
    assert_eq!(root_walk_step(walk, 9, 1000), Ok(RootWalk { current: 9, steps: 2 }));
    assert_eq!(root_walk_step(walk, 0xffff_ffff, 1000), Err("missing exFAT allocation bitmap"));
    assert_eq!(root_walk_step(walk, 1, 1000), Err("invalid exFAT root directory chain"));
    assert_eq!(root_walk_step(RootWalk { current: 5, steps: 1 }, 3, 1), Err("invalid exFAT root directory chain"));
    assert_eq!(root_walk_step(RootWalk { current: 5, steps: u32::MAX }, 3, u32::MAX), Err("exFAT root chain overflows"));

    assert_eq!(bitmap_chain_start(3, 1000), Ok(BitmapChainWalk { current: 3, length: 1 }));
    assert_eq!(bitmap_chain_start(1, 1000), Err("invalid exFAT allocation bitmap cluster"));
    assert_eq!(bitmap_chain_start(1002, 1000), Err("invalid exFAT allocation bitmap cluster"));
    let walk = BitmapChainWalk { current: 3, length: 1 };
    assert_eq!(bitmap_chain_step(walk, 4, 1000), Ok(ChainStep::Next(BitmapChainWalk { current: 4, length: 2 })));
    assert_eq!(bitmap_chain_step(walk, 0xffff_ffff, 1000), Ok(ChainStep::Done(1)));
    assert_eq!(bitmap_chain_step(walk, 2, 1000), Err("invalid exFAT allocation bitmap chain"));
    assert_eq!(bitmap_chain_step(walk, 4, 1), Err("invalid exFAT allocation bitmap chain"));
}

#[test]
fn bitmap_chain_must_match_old_and_new_sizes() {
    let g = exfat_bitmap_geometry(&exfat_boot(), 512, 70_000).expect("geometry");
    assert_eq!(check_bitmap_chain(g, 8192, 2), Err("exFAT allocation bitmap chain cannot cover expanded volume"));
    assert_eq!(check_bitmap_chain(g, 9000, 3), Ok(()));
    assert_eq!(check_bitmap_chain(g, 9000, 2), Err("exFAT allocation bitmap chain cannot cover expanded volume"));
    assert_eq!(check_bitmap_chain(g, u64::MAX, 3), Err("exFAT bitmap length overflows"));
}

#[test]
fn rewritten_primary_header_parses_with_new_layout() {
    let mut h = vec![0u8; 512];
    h[..8].copy_from_slice(b"EFI PART");
    h[12..16].copy_from_slice(&92u32.to_le_bytes());
    h[24..32].copy_from_slice(&1u64.to_le_bytes());
    h[32..40].copy_from_slice(&1000u64.to_le_bytes());
    h[48..56].copy_from_slice(&966u64.to_le_bytes());
    h[72..80].copy_from_slice(&2u64.to_le_bytes());
    h[80..84].copy_from_slice(&128u32.to_le_bytes());
    h[84..88].copy_from_slice(&128u32.to_le_bytes());
    let crc = crc32(&h[..92]);
    h[16..20].copy_from_slice(&crc.to_le_bytes());
    let before = parse_gpt_header(&h, 512).expect("valid");
    update_primary_header(&mut h, 9999, 9966, 0x1234_5678).expect("updated");
    let after = parse_gpt_header(&h, 512).expect("still valid");
    assert_eq!(after.old_backup_lba, 9999);
    assert_eq!(after.last_usable_lba, 9966);
    assert_eq!(after.entry_lba, before.entry_lba);
    assert_eq!(after.entry_count, before.entry_count);
    assert_eq!(after.entry_size, before.entry_size);
    assert_eq!(&h[88..92], &0x1234_5678u32.to_le_bytes());
}

#[test]
fn grown_partition_stays_before_the_backup_gpt() {
    let mut boot = vec![0u8; 512];
    boot[..3].copy_from_slice(&[0xeb, 0x76, 0x90]);
    boot[3..11].copy_from_slice(b"EXFAT   ");
    boot[64..72].copy_from_slice(&100u64.to_le_bytes());
    boot[72..80].copy_from_slice(&4096u64.to_le_bytes());
    boot[84..88].copy_from_slice(&64u32.to_le_bytes());
    boot[88..92].copy_from_slice(&128u32.to_le_bytes());
    boot[108] = 9;
    boot[109] = 3;
    let data = PartitionInfo { index: 1, start_lba: 100, end_lba: 4195 };
    let info = GptInfo { old_backup_lba: 8000, last_usable_lba: 7966, entry_lba: 2, entry_count: 128, entry_size: 128 };
    let window = plan_growth_window(19_999, 32, data).expect("ok").expect("window");
    let growth = plan_exfat_growth(&boot, 512, data, window.available_blocks).expect("growth");
    assert!(growth.new_blocks <= window.available_blocks);
    let writes = plan_growth_writes(info, data, 19_999, window, growth).expect("ok").expect("writes");
    assert!(writes.new_data_end >= data.end_lba);
    assert!(writes.new_data_end <= window.new_last_usable_lba);
    assert!(window.new_last_usable_lba < window.backup_entries_lba);
}

#[test]
fn little_endian_values_read_back() {
    let mut buf = vec![0xffu8; 16];
    write_le_u32(&mut buf, 3, 0xdead_beef).expect("fits");
    write_le_u64(&mut buf, 8, 0x0123_4567_89ab_cdef).expect("fits");
    assert_eq!(read_le_u32(&buf, 3), Some(0xdead_beef));
    assert_eq!(read_le_u64(&buf, 8), Some(0x0123_4567_89ab_cdef));
    assert_eq!(buf[0], 0xff);
    assert_eq!(buf[7], 0xff);
}
