use nextboot_boot::scanner::helpers::block_range_read_len;
use nextboot_boot::scanner::model::{PartitionCandidate, PartitionRange};
use nextboot_boot::scanner::partitions::{
    find_logical_mbr_partition, find_next_ebr_lba, gpt_entry_array_request, gpt_partition_candidates,
    has_protective_mbr, is_extended_mbr_partition, parse_mbr_partition, range_contains_extent, range_contains_lba,
    range_fits_disk, MbrScan, GPT_HEADER_LBA, GPT_HEADER_MIN_SIZE, GPT_MIN_PARTITION_ENTRY_SIZE,
    MBR_PARTITION_ENTRY_SIZE, MBR_PARTITION_TABLE_OFFSET,
};
use nextboot_boot::source_disk::PartitionFormat;

struct MemoryDisk {
    block_size: usize,
    bytes: Vec<u8>,
}

impl MemoryDisk {
    fn new(block_count: usize) -> Self {
        Self::with_block_size(block_count, 512)
    }

    fn with_block_size(block_count: usize, block_size: usize) -> Self {
        Self { block_size, bytes: vec![0; block_count * block_size] }
    }

    fn total_blocks(&self) -> u64 {
        (self.bytes.len() / self.block_size) as u64
    }

    fn block(&self, lba: usize) -> &[u8] {
        let start = lba * self.block_size;
        &self.bytes[start..start + self.block_size]
    }

    fn block_mut(&mut self, lba: usize) -> &mut [u8] {
        let start = lba * self.block_size;
        &mut self.bytes[start..start + self.block_size]
    }

    fn read_one_block(&self, lba: u64) -> Option<Vec<u8>> {
        if lba >= self.total_blocks() {
            return None;
        }
        Some(self.block(lba as usize).to_vec())
    }

    fn read_block_range(&self, start_lba: u64, byte_len: usize) -> Option<Vec<u8>> {
        let len = block_range_read_len(start_lba, byte_len, self.block_size as u32, self.total_blocks())?;
        let start = start_lba as usize * self.block_size;
        let mut bytes = self.bytes.get(start..start + len)?.to_vec();
        bytes.truncate(byte_len);
        Some(bytes)
    }

    fn discover_gpt_partitions(&self, first_block: &[u8]) -> Option<Vec<PartitionCandidate>> {
        let header = self.read_one_block(GPT_HEADER_LBA)?;
        let request = gpt_entry_array_request(first_block, &header)?;
        let entries = self.read_block_range(request.entry_lba, request.byte_len)?;
        Some(gpt_partition_candidates(&entries, request))
    }

    fn discover_mbr_partitions(&self, first_block: &[u8]) -> Vec<PartitionCandidate> {
        let mut scan = MbrScan::new(first_block, self.total_blocks());
        while let Some(lba) = scan.next_read() {
            let ebr = self.read_one_block(lba);
            scan.block_read(ebr.as_deref());
        }
        scan.into_candidates()
    }
}

fn write_mbr_entry(block: &mut [u8], index: usize, partition_type: u8, start_lba: u32, total_sectors: u32) {
    block[510] = 0x55;
    block[511] = 0xaa;
    let offset = MBR_PARTITION_TABLE_OFFSET + index * MBR_PARTITION_ENTRY_SIZE;
    block[offset + 4] = partition_type;
    block[offset + 8..offset + 12].copy_from_slice(&start_lba.to_le_bytes());
    block[offset + 12..offset + 16].copy_from_slice(&total_sectors.to_le_bytes());
}

fn write_protective_mbr(block: &mut [u8]) {
    write_mbr_entry(block, 0, 0xee, 1, u32::MAX);
}

fn write_gpt_header(block: &mut [u8], entry_lba: u64, num_entries: u32, entry_size: u32) {
    block[0..8].copy_from_slice(b"EFI PART");
    block[8..12].copy_from_slice(&0x0001_0000u32.to_le_bytes());
    block[12..16].copy_from_slice(&GPT_HEADER_MIN_SIZE.to_le_bytes());
    block[24..32].copy_from_slice(&GPT_HEADER_LBA.to_le_bytes());
    block[72..80].copy_from_slice(&entry_lba.to_le_bytes());
    block[80..84].copy_from_slice(&num_entries.to_le_bytes());
    block[84..88].copy_from_slice(&entry_size.to_le_bytes());
}

fn write_gpt_entry(block: &mut [u8], offset: usize, start_lba: u64, end_lba: u64) {
    let entry = &mut block[offset..offset + GPT_MIN_PARTITION_ENTRY_SIZE];
    entry[0] = 1;
    entry[16] = 2;
    entry[32..40].copy_from_slice(&start_lba.to_le_bytes());
    entry[40..48].copy_from_slice(&end_lba.to_le_bytes());
}

#[test]
fn discovers_mbr_logical_partitions_from_ebr_chain() {
    let mut disk = MemoryDisk::new(32_000);
    write_mbr_entry(disk.block_mut(0), 1, 0x07, 2048, 4096);
    write_mbr_entry(disk.block_mut(0), 2, 0x0f, 10_000, 10_000);
    write_mbr_entry(disk.block_mut(10_000), 0, 0x07, 63, 1000);
    write_mbr_entry(disk.block_mut(10_000), 1, 0x05, 2000, 8000);
    write_mbr_entry(disk.block_mut(12_000), 0, 0x0b, 128, 500);

    let first_block = disk.block(0).to_vec();
    let partitions = disk.discover_mbr_partitions(&first_block);

    assert_eq!(partitions.len(), 3);
    assert_eq!(partitions[0].number, 2);
    assert_eq!(partitions[0].start_lba, 2048);
    assert_eq!(partitions[0].block_count, 4096);
    assert_eq!(partitions[0].format, PartitionFormat::Mbr);
    assert_eq!(partitions[1].number, 5);
    assert_eq!(partitions[1].start_lba, 10_063);
    assert_eq!(partitions[1].block_count, 1000);
    assert_eq!(partitions[2].number, 6);
    assert_eq!(partitions[2].start_lba, 12_128);
    assert_eq!(partitions[2].block_count, 500);
}

#[test]
fn discovers_gpt_partitions_from_entry_array_beyond_prefix_window() {
    let mut disk = MemoryDisk::new(2048);
    let entry_lba = 600;
    write_protective_mbr(disk.block_mut(0));
    write_gpt_header(disk.block_mut(1), entry_lba, 2, GPT_MIN_PARTITION_ENTRY_SIZE as u32);
    write_gpt_entry(disk.block_mut(entry_lba as usize), 0, 700, 799);
    write_gpt_entry(disk.block_mut(entry_lba as usize), GPT_MIN_PARTITION_ENTRY_SIZE, 1024, 1535);

    let first_block = disk.block(0).to_vec();
    let partitions = disk.discover_gpt_partitions(&first_block).expect("gpt partitions");

    assert_eq!(partitions.len(), 2);
    assert_eq!(partitions[0].number, 1);
    assert_eq!(partitions[0].start_lba, 700);
    assert_eq!(partitions[0].block_count, 100);
    assert_eq!(partitions[0].format, PartitionFormat::Gpt);
    assert_eq!(partitions[1].number, 2);
    assert_eq!(partitions[1].start_lba, 1024);
    assert_eq!(partitions[1].block_count, 512);
}

#[test]
fn discovers_gpt_partitions_on_4k_native_disk() {
    let mut disk = MemoryDisk::with_block_size(128, 4096);
    write_protective_mbr(disk.block_mut(0));
    write_gpt_header(disk.block_mut(1), 2, 1, GPT_MIN_PARTITION_ENTRY_SIZE as u32);
    write_gpt_entry(disk.block_mut(2), 0, 16, 63);

    let first_block = disk.block(0).to_vec();
    let partitions = disk.discover_gpt_partitions(&first_block).expect("gpt partitions");

    assert_eq!(partitions.len(), 1);
    assert_eq!(partitions[0].number, 1);
    assert_eq!(partitions[0].start_lba, 16);
    assert_eq!(partitions[0].block_count, 48);
    assert_eq!(partitions[0].format, PartitionFormat::Gpt);
}

#[test]
fn mbr_scan_stops_at_ebr_cycles() {
    let mut disk = MemoryDisk::new(32_000);
    write_mbr_entry(disk.block_mut(0), 0, 0x05, 10_000, 10_000);
    write_mbr_entry(disk.block_mut(10_000), 0, 0x83, 10, 20);
    write_mbr_entry(disk.block_mut(10_000), 1, 0x05, 100, 100);
    write_mbr_entry(disk.block_mut(10_100), 0, 0x83, 10, 20);
    write_mbr_entry(disk.block_mut(10_100), 1, 0x05, 200, 100);
    write_mbr_entry(disk.block_mut(10_200), 0, 0x83, 10, 20);
    // The third EBR links back to the second.
    write_mbr_entry(disk.block_mut(10_200), 1, 0x05, 100, 100);

    let first_block = disk.block(0).to_vec();
    let partitions = disk.discover_mbr_partitions(&first_block);
    let starts: Vec<u64> = partitions.iter().map(|p| p.start_lba).collect();
    let numbers: Vec<u32> = partitions.iter().map(|p| p.number).collect();
    assert_eq!(starts, vec![10_010, 10_110, 10_210]);
    assert_eq!(numbers, vec![5, 6, 7]);
}

#[test]
fn mbr_scan_without_signature_finds_nothing() {
    let disk = MemoryDisk::new(16);
    let first_block = disk.block(0).to_vec();
    let mut scan = MbrScan::new(&first_block, disk.total_blocks());
    assert_eq!(scan.next_read(), None);
    scan.block_read(None);
    assert!(scan.candidates().is_empty());
}

#[test]
fn logical_partition_outside_extended_range_is_skipped() {
    let mut disk = MemoryDisk::new(32_000);
    write_mbr_entry(disk.block_mut(0), 0, 0x0f, 10_000, 100);
    write_mbr_entry(disk.block_mut(10_000), 0, 0x07, 63, 1000);
    let first_block = disk.block(0).to_vec();
    assert!(disk.discover_mbr_partitions(&first_block).is_empty());
}

#[test]
fn primary_entries_are_parsed_and_classified() {
    let mut block = vec![0u8; 512];
    assert_eq!(parse_mbr_partition(&block, 0), None);
    write_mbr_entry(&mut block, 3, 0x85, 7, 9);
    let entry = parse_mbr_partition(&block, 3).expect("entry");
    assert_eq!(entry.partition_type, 0x85);
    assert_eq!(entry.start_lba, 7);
    assert_eq!(entry.total_sectors, 9);
    assert_eq!(parse_mbr_partition(&block, 4), None);
    assert_eq!(parse_mbr_partition(&block, 2), None);
    assert!(is_extended_mbr_partition(0x05));
    assert!(is_extended_mbr_partition(0x0f));
    assert!(is_extended_mbr_partition(0x85));
    assert!(!is_extended_mbr_partition(0x07));
    assert!(!has_protective_mbr(&block));
    write_mbr_entry(&mut block, 2, 0xee, 1, 100);
    assert!(has_protective_mbr(&block));
    assert_eq!(find_logical_mbr_partition(&block), None);
    write_mbr_entry(&mut block, 1, 0x07, 63, 100);
    assert_eq!(find_logical_mbr_partition(&block).map(|p| p.start_lba), Some(63));
}

#[test]
fn next_ebr_is_relative_to_extended_start() {
    let extended = PartitionRange { start_lba: 1000, block_count: 500 };
    let mut block = vec![0u8; 512];
    write_mbr_entry(&mut block, 0, 0x07, 63, 10);
    write_mbr_entry(&mut block, 1, 0x05, 100, 50);
    assert_eq!(find_next_ebr_lba(&block, extended, 1000, 10_000), Some(1100));
    assert_eq!(find_next_ebr_lba(&block, extended, 1100, 10_000), None);
    assert_eq!(find_next_ebr_lba(&block, extended, 1000, 1100), None);
    let far = PartitionRange { start_lba: u64::MAX - 10, block_count: 5 };
    assert_eq!(find_next_ebr_lba(&block, far, 0, u64::MAX), None);
}

#[test]
fn range_checks_reject_overflow_and_empty_extents() {
    let range = PartitionRange { start_lba: 100, block_count: 50 };
    assert!(range_contains_lba(range, 100));
    assert!(range_contains_lba(range, 149));
    assert!(!range_contains_lba(range, 150));
    assert!(!range_contains_lba(range, 99));
    assert!(!range_contains_lba(PartitionRange { start_lba: 100, block_count: 0 }, 100));
    assert!(range_contains_extent(range, 100, 50));
    assert!(!range_contains_extent(range, 100, 51));
    assert!(!range_contains_extent(range, 120, 0));
    assert!(!range_contains_extent(range, u64::MAX, 2));
    assert!(range_fits_disk(10, 10, 20));
    assert!(!range_fits_disk(10, 11, 20));
    assert!(!range_fits_disk(10, 0, 20));
    assert!(!range_fits_disk(u64::MAX, 1, u64::MAX));
}

#[test]
fn gpt_request_rejects_bad_headers() {
    let mut first = vec![0u8; 512];
    write_protective_mbr(&mut first);
    let mut header = vec![0u8; 512];
    write_gpt_header(&mut header, 2, 8, 128);
    let request = gpt_entry_array_request(&first, &header).expect("request");
    assert_eq!(request.entry_lba, 2);
    assert_eq!(request.entry_count, 8);
    assert_eq!(request.entry_size, 128);
    assert_eq!(request.byte_len, 1024);

    let plain = vec![0u8; 512];
    assert_eq!(gpt_entry_array_request(&plain, &header), None);

    let mut small_entries = header.clone();
    write_gpt_header(&mut small_entries, 2, 8, 64);
    assert_eq!(gpt_entry_array_request(&first, &small_entries), None);

    let mut no_entries = header.clone();
    write_gpt_header(&mut no_entries, 2, 0, 128);
    assert_eq!(gpt_entry_array_request(&first, &no_entries), None);

    let mut many = header.clone();
    write_gpt_header(&mut many, 2, 100_000, 512);
    assert_eq!(gpt_entry_array_request(&first, &many), None);
    write_gpt_header(&mut many, 2, 100_000, 128);
    assert_eq!(gpt_entry_array_request(&first, &many).map(|r| r.entry_count), Some(4096));

    let mut unsigned = header.clone();
    unsigned[0] = b'X';
    assert_eq!(gpt_entry_array_request(&first, &unsigned), None);
}

#[test]
fn gpt_entries_skip_unused_and_reversed_slots() {
    let mut first = vec![0u8; 512];
    write_protective_mbr(&mut first);
    let mut header = vec![0u8; 512];
    write_gpt_header(&mut header, 2, 4, 128);
    let request = gpt_entry_array_request(&first, &header).expect("request");
    let mut entries = vec![0u8; 512];
    write_gpt_entry(&mut entries, 128, 50, 40);
    write_gpt_entry(&mut entries, 256, 0, 40);
    write_gpt_entry(&mut entries, 384, 90, 90);
    let partitions = gpt_partition_candidates(&entries, request);
    assert_eq!(partitions.len(), 1);
    assert_eq!(partitions[0].number, 4);
    assert_eq!(partitions[0].block_count, 1);
    // Entries that the bytes do not wholly hold are not read.
    assert!(gpt_partition_candidates(&entries[..383], request).is_empty());
}

#[test]
fn block_range_read_covers_whole_blocks() {
    assert_eq!(block_range_read_len(0, 0, 512, 0), Some(0));
    assert_eq!(block_range_read_len(2, 1000, 512, 4), Some(1024));
    assert_eq!(block_range_read_len(3, 1000, 512, 4), None);
    assert_eq!(block_range_read_len(0, 10, 0, 4), None);
    assert_eq!(block_range_read_len(u64::MAX, 1, 512, u64::MAX), None);
}
