use nextboot_boot::media_grow::{
    crc32, div_round_up, find_release_data_partition, gpt_name_eq, parse_gpt_header, plan_exfat_growth,
    update_backup_header, update_exfat_boot_checksum, update_exfat_boot_sector, update_gpt_entries, update_header_crc,
    update_primary_header, write_le_u32, write_le_u64, ExfatGrowth, PartitionInfo,
};

fn gpt_header() -> Vec<u8> {
    let mut h = vec![0u8; 512];
    h[..8].copy_from_slice(b"EFI PART");
    h[8..12].copy_from_slice(&0x0001_0000u32.to_le_bytes());
    h[12..16].copy_from_slice(&92u32.to_le_bytes());
    h[24..32].copy_from_slice(&1u64.to_le_bytes());
    h[32..40].copy_from_slice(&1000u64.to_le_bytes());
    h[48..56].copy_from_slice(&966u64.to_le_bytes());
    h[72..80].copy_from_slice(&2u64.to_le_bytes());
    h[80..84].copy_from_slice(&128u32.to_le_bytes());
    h[84..88].copy_from_slice(&128u32.to_le_bytes());
    let crc = crc32(&h[..92]);
    h[16..20].copy_from_slice(&crc.to_le_bytes());
    h
}

fn named_entry(name: &str, start: u64, end: u64) -> Vec<u8> {
    let mut e = vec![0u8; 128];
    e[0] = 1;
    e[32..40].copy_from_slice(&start.to_le_bytes());
    e[40..48].copy_from_slice(&end.to_le_bytes());
    for (i, b) in name.bytes().enumerate() {
        e[56 + 2 * i] = b;
    }
    e
}

fn entry_array(entries: &[Vec<u8>], count: usize) -> Vec<u8> {
    let mut out = vec![0u8; count * 128];
    for (i, e) in entries.iter().enumerate() {
        out[i * 128..(i + 1) * 128].copy_from_slice(e);
    }
    out
}

#[test]
fn crc32_matches_the_standard_check_value() {
    assert_eq!(crc32(b"123456789"), 0xcbf4_3926);
    assert_eq!(crc32(b""), 0);
}

#[test]
fn gpt_header_parses_when_its_crc_matches() {
    let h = gpt_header();
    let info = parse_gpt_header(&h, 512).expect("gpt");
    assert_eq!(info.old_backup_lba, 1000);
    assert_eq!(info.last_usable_lba, 966);
    assert_eq!(info.entry_lba, 2);
    assert_eq!(info.entry_count, 128);
    assert_eq!(info.entry_size, 128);
}

#[test]
fn gpt_header_errors() {
    let mut h = gpt_header();
    h[20] ^= 1;
    assert_eq!(parse_gpt_header(&h, 512).unwrap_err(), "GPT header CRC mismatch");
    let mut h = gpt_header();
    h[0] = b'X';
    assert_eq!(parse_gpt_header(&h, 512).unwrap_err(), "missing GPT header");
    assert_eq!(parse_gpt_header(&gpt_header(), 64).unwrap_err(), "unsupported GPT header size");
    assert_eq!(parse_gpt_header(&gpt_header()[..40], 512).unwrap_err(), "truncated GPT header");
    let mut h = gpt_header();
    h[84..88].copy_from_slice(&100u32.to_le_bytes());
    update_header_crc(&mut h).unwrap();
    assert_eq!(parse_gpt_header(&h, 512).unwrap_err(), "unsupported GPT entry geometry");
    let mut h = gpt_header();
    h[80..84].copy_from_slice(&100_000u32.to_le_bytes());
    update_header_crc(&mut h).unwrap();
    assert_eq!(parse_gpt_header(&h, 512).unwrap_err(), "GPT entry array is too large");
    let mut h = gpt_header();
    h[24..32].copy_from_slice(&7u64.to_le_bytes());
    update_header_crc(&mut h).unwrap();
    assert_eq!(parse_gpt_header(&h, 512).unwrap_err(), "GPT primary header is not at LBA 1");
}

#[test]
fn gpt_names_must_match_exactly() {
    let e = named_entry("NEXBOOT_DATA", 0, 0);
    assert!(gpt_name_eq(&e, "NEXBOOT_DATA"));
    assert!(!gpt_name_eq(&e, "NEXBOOT_DAT"));
    assert!(!gpt_name_eq(&e, "NEXBOOT_EFI"));
    assert!(!gpt_name_eq(&e[..100], "NEXBOOT_DATA"));
}

#[test]
fn release_partition_is_found_after_the_efi_partition() {
    let entries = entry_array(&[named_entry("NEXBOOT_EFI", 34, 99), named_entry("NEXBOOT_DATA", 100, 500)], 4);
    let data = find_release_data_partition(&entries, 4, 128).expect("data");
    assert_eq!(data, PartitionInfo { index: 1, start_lba: 100, end_lba: 500 });
}

#[test]
fn release_partition_errors() {
    let only_data = entry_array(&[named_entry("NEXBOOT_DATA", 100, 500)], 2);
    assert_eq!(find_release_data_partition(&only_data, 2, 128).unwrap_err(), "missing NEXBOOT_EFI partition");
    let only_efi = entry_array(&[named_entry("NEXBOOT_EFI", 34, 99)], 2);
    assert_eq!(find_release_data_partition(&only_efi, 2, 128).unwrap_err(), "missing NEXBOOT_DATA partition");
    let trailing = entry_array(
        &[named_entry("NEXBOOT_EFI", 34, 99), named_entry("NEXBOOT_DATA", 100, 500), named_entry("OTHER", 600, 700)],
        3,
    );
    assert_eq!(find_release_data_partition(&trailing, 3, 128).unwrap_err(), "non-empty partition follows NEXBOOT_DATA");
    assert_eq!(find_release_data_partition(&trailing, 4, 128).unwrap_err(), "truncated GPT entry");
}

#[test]
fn header_updates_keep_a_valid_crc() {
    let mut primary = gpt_header();
    update_primary_header(&mut primary, 2000, 1966, 0x1234_5678).unwrap();
    let info = parse_gpt_header(&primary, 512).expect("primary");
    assert_eq!(info.old_backup_lba, 2000);
    assert_eq!(info.last_usable_lba, 1966);
    assert_eq!(u32::from_le_bytes(primary[88..92].try_into().unwrap()), 0x1234_5678);

    let mut backup = primary.clone();
    update_backup_header(&mut backup, 2000, 1967).unwrap();
    assert_eq!(u64::from_le_bytes(backup[24..32].try_into().unwrap()), 2000);
    assert_eq!(u64::from_le_bytes(backup[32..40].try_into().unwrap()), 1);
    assert_eq!(u64::from_le_bytes(backup[72..80].try_into().unwrap()), 1967);
    let mut check = backup.clone();
    check[16..20].copy_from_slice(&[0; 4]);
    assert_eq!(crc32(&check[..92]), u32::from_le_bytes(backup[16..20].try_into().unwrap()));

    let mut short = vec![0u8; 10];
    assert_eq!(update_header_crc(&mut short).unwrap_err(), "missing GPT header size");
}

#[test]
fn entry_end_updates_and_out_of_bounds_writes() {
    let mut entries = entry_array(&[named_entry("A", 1, 2), named_entry("B", 3, 4)], 2);
    update_gpt_entries(&mut entries, 128, 1, 99).unwrap();
    assert_eq!(u64::from_le_bytes(entries[168..176].try_into().unwrap()), 99);
    assert_eq!(update_gpt_entries(&mut entries, 128, 2, 99).unwrap_err(), "write is out of bounds");
    assert_eq!(update_gpt_entries(&mut entries, usize::MAX, 2, 99).unwrap_err(), "GPT entry offset overflows");
    let mut small = [0u8; 6];
    assert_eq!(write_le_u32(&mut small, 3, 1).unwrap_err(), "write is out of bounds");
    assert_eq!(write_le_u64(&mut small, 0, 1).unwrap_err(), "write is out of bounds");
    assert_eq!(small, [0u8; 6]);
    write_le_u32(&mut small, 2, 0x0403_0201).unwrap();
    assert_eq!(small, [0, 0, 1, 2, 3, 4]);
}

#[test]
fn rounding_division() {
    assert_eq!(div_round_up(10, 4), 3);
    assert_eq!(div_round_up(8, 4), 2);
    assert_eq!(div_round_up(5, 0), 0);
    assert_eq!(div_round_up(usize::MAX, 2), usize::MAX / 2);
}

fn exfat_boot(start_lba: u64) -> Vec<u8> {
    let mut b = vec![0u8; 512];
    b[..3].copy_from_slice(&[0xeb, 0x76, 0x90]);
    b[3..11].copy_from_slice(b"EXFAT   ");
    b[64..72].copy_from_slice(&start_lba.to_le_bytes());
    b[72..80].copy_from_slice(&4096u64.to_le_bytes());
    b[84..88].copy_from_slice(&64u32.to_le_bytes());
    b[88..92].copy_from_slice(&128u32.to_le_bytes());
    b[108] = 9;
    b[109] = 3;
    b
}

#[test]
fn exfat_growth_is_bounded_by_the_fat() {
    let data = PartitionInfo { index: 1, start_lba: 100, end_lba: 4195 };
    let growth = plan_exfat_growth(&exfat_boot(100), 512, data, 100_000).expect("growth");
    // FAT of 64 sectors of 512 bytes holds 8192 entries, two reserved.
    assert_eq!(growth, ExfatGrowth { old_blocks: 4096, new_blocks: 128 + 8190 * 8, cluster_count: 8190 });
    let small = plan_exfat_growth(&exfat_boot(100), 512, data, 1000).expect("growth");
    assert_eq!(small.cluster_count, (1000 - 128) / 8);
    assert_eq!(small.new_blocks, 128 + 109 * 8);
}

#[test]
fn exfat_growth_errors() {
    let data = PartitionInfo { index: 1, start_lba: 100, end_lba: 4195 };
    assert_eq!(plan_exfat_growth(&exfat_boot(99), 512, data, 100_000).unwrap_err(), "exFAT partition offset does not match GPT");
    assert_eq!(plan_exfat_growth(&exfat_boot(100), 4096, data, 100_000).unwrap_err(), "exFAT sector size does not match media");
    assert_eq!(plan_exfat_growth(&exfat_boot(100), 512, data, 128).unwrap_err(), "invalid growable exFAT geometry");
    assert_eq!(plan_exfat_growth(&exfat_boot(100), 512, data, 200).unwrap_err(), "expanded exFAT cluster count is too small");
    let mut not_exfat = exfat_boot(100);
    not_exfat[3] = b'N';
    assert_eq!(plan_exfat_growth(&not_exfat, 512, data, 100_000).unwrap_err(), "NEXTDATA is not exFAT");
    let mut bad_shift = exfat_boot(100);
    bad_shift[108] = 64;
    assert_eq!(plan_exfat_growth(&bad_shift, 512, data, 100_000).unwrap_err(), "invalid exFAT sector shift");
}

#[test]
fn exfat_boot_sector_records_growth() {
    let mut b = exfat_boot(100);
    update_exfat_boot_sector(&mut b, ExfatGrowth { old_blocks: 4096, new_blocks: 9000, cluster_count: 1000 }).unwrap();
    assert_eq!(u64::from_le_bytes(b[72..80].try_into().unwrap()), 9000);
    assert_eq!(u32::from_le_bytes(b[92..96].try_into().unwrap()), 1000);
}

fn reference_checksum(region: &[u8]) -> u32 {
    let mut c = 0u32;
    for (i, b) in region.iter().enumerate() {
        if i == 106 || i == 107 || i == 112 {
            continue;
        }
        c = c.rotate_right(1).wrapping_add(u32::from(*b));
    }
    c
}

#[test]
fn exfat_checksum_sector_repeats_the_checksum() {
    let mut region = vec![0u8; 12 * 512];
    for (i, b) in region.iter_mut().enumerate().take(11 * 512) {
        *b = (i * 7 % 251) as u8;
    }
    region[11 * 512] = 0x55;
    let expected = reference_checksum(&region[..11 * 512]);
    update_exfat_boot_checksum(&mut region, 512).unwrap();
    for chunk in region[11 * 512..].chunks_exact(4) {
        assert_eq!(u32::from_le_bytes(chunk.try_into().unwrap()), expected);
    }
    let mut short = vec![0u8; 100];
    assert_eq!(update_exfat_boot_checksum(&mut short, 512).unwrap_err(), "truncated exFAT boot region");
}
