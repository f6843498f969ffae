//! Partition tables of raw disks: the MBR with its chain of extended boot
//! records, and the GPT behind a protective MBR.
//!
//! Reading blocks is the caller's part. For the GPT the caller reads the
//! header block at LBA 1, asks [`gpt_entry_array_request`] which bytes to read
//! next, and hands them to [`gpt_partition_candidates`]. For the MBR the
//! caller drives an [`MbrScan`]: it reads the block that
//! [`MbrScan::next_read`] names and hands the result to
//! [`MbrScan::block_read`], until nothing is left to read.

use super::helpers::{has_mbr_signature, mbr_signature};
use super::model::{MbrPartitionEntry, PartitionCandidate, PartitionRange};
use crate::bytes::{le_u32, le_u64, read_le_u32, read_le_u64};
use crate::source_disk::PartitionFormat;
use vstd::prelude::*;

verus! {

pub const MBR_PARTITION_TABLE_OFFSET: usize = 0x1be;
pub const MBR_PARTITION_ENTRY_SIZE: usize = 16;
pub const MBR_PRIMARY_PARTITION_COUNT: usize = 4;
pub const MBR_LOGICAL_PARTITION_NUMBER_BASE: u32 = 5;
pub const MBR_MAX_LOGICAL_PARTITIONS: usize = 128;
pub const GPT_HEADER_LBA: u64 = 1;
pub const GPT_HEADER_MIN_SIZE: u32 = 92;
pub const GPT_PARTITION_ENTRY_LBA_OFFSET: usize = 72;
pub const GPT_NUM_PARTITION_ENTRIES_OFFSET: usize = 80;
pub const GPT_PARTITION_ENTRY_SIZE_OFFSET: usize = 84;
pub const GPT_MIN_PARTITION_ENTRY_SIZE: usize = 128;
pub const GPT_MAX_PARTITION_ENTRY_SIZE: usize = 4096;
pub const GPT_MAX_PARTITION_ENTRIES: usize = 4096;
pub const GPT_MAX_PARTITION_ENTRY_ARRAY_BYTES: usize = 0x10_0000;

// ---------------------------------------------------------------------------
// MBR and EBR tables
// ---------------------------------------------------------------------------

/// Byte offset of primary table entry `index`.
pub open spec fn mbr_entry_offset(index: int) -> int {
    0x1be + 16 * index
}

/// Entry `index` of the table in `block`: `None` for an index past the four
/// slots, a block without the boot signature, or an empty slot (type 0).
pub open spec fn mbr_entry(block: Seq<u8>, index: int) -> Option<MbrPartitionEntry> {
    let off = mbr_entry_offset(index);
    if !(0 <= index < 4) || !mbr_signature(block) || block[off + 4] == 0 {
        None
    } else {
        Some(MbrPartitionEntry {
            partition_type: block[off + 4],
            start_lba: le_u32(block, off + 8),
            total_sectors: le_u32(block, off + 12),
        })
    }
}

/// Reads entry `index` of the partition table in `block`.
pub fn parse_mbr_partition(block: &[u8], index: usize) -> (r: Option<MbrPartitionEntry>)
    ensures
        r == mbr_entry(block@, index as int),
{
    if index >= MBR_PRIMARY_PARTITION_COUNT || !has_mbr_signature(block) {
        return None;
    }
    let offset = MBR_PARTITION_TABLE_OFFSET + index * MBR_PARTITION_ENTRY_SIZE;
    let partition_type = block[offset + 4];
    if partition_type == 0 {
        return None;
    }
    let start_lba = read_le_u32(block, offset + 8);
    let total_sectors = read_le_u32(block, offset + 12);
    match (start_lba, total_sectors) {
        (Some(start_lba), Some(total_sectors)) => Some(MbrPartitionEntry { partition_type, start_lba, total_sectors }),
        _ => None,
    }
}

/// The type codes of extended partitions (CHS, LBA and Linux extended).
pub open spec fn extended_type(partition_type: u8) -> bool {
    partition_type == 0x05 || partition_type == 0x0f || partition_type == 0x85
}

/// Whether `partition_type` marks an extended partition.
pub fn is_extended_mbr_partition(partition_type: u8) -> (r: bool)
    ensures
        r == extended_type(partition_type),
{
    partition_type == 0x05 || partition_type == 0x0f || partition_type == 0x85
}

/// `lba` lies inside the non-empty `range`.
pub open spec fn contains_lba(range: PartitionRange, lba: u64) -> bool {
    range.block_count != 0 && lba >= range.start_lba && lba - range.start_lba < range.block_count
}

/// Whether `lba` lies inside the non-empty `range`.
pub fn range_contains_lba(range: PartitionRange, lba: u64) -> (r: bool)
    ensures
        r == contains_lba(range, lba),
{
    range.block_count != 0 && lba >= range.start_lba && lba - range.start_lba < range.block_count
}

/// The non-empty extent lies inside `range`, and neither end overflows.
pub open spec fn contains_extent(range: PartitionRange, start_lba: u64, block_count: u64) -> bool {
    &&& block_count != 0
    &&& start_lba >= range.start_lba
    &&& start_lba + block_count <= u64::MAX
    &&& range.start_lba + range.block_count <= u64::MAX
    &&& start_lba + block_count <= range.start_lba + range.block_count
}

/// Whether the extent of `block_count` blocks at `start_lba` lies inside
/// `range`.
pub fn range_contains_extent(range: PartitionRange, start_lba: u64, block_count: u64) -> (r: bool)
    ensures
        r == contains_extent(range, start_lba, block_count),
{
    if block_count == 0 || start_lba < range.start_lba {
        return false;
    }
    let end_lba = match start_lba.checked_add(block_count) {
        Some(v) => v,
        None => return false,
    };
    let range_end_lba = match range.start_lba.checked_add(range.block_count) {
        Some(v) => v,
        None => return false,
    };
    end_lba <= range_end_lba
}

/// The non-empty extent ends within a disk of `total_blocks` blocks.
pub open spec fn fits_disk(start_lba: u64, block_count: u64, total_blocks: u64) -> bool {
    block_count != 0 && start_lba + block_count <= u64::MAX && start_lba + block_count <= total_blocks
}

/// Whether the extent ends within a disk of `total_blocks` blocks.
pub fn range_fits_disk(start_lba: u64, block_count: u64, total_blocks: u64) -> (r: bool)
    ensures
        r == fits_disk(start_lba, block_count, total_blocks),
{
    if block_count == 0 {
        return false;
    }
    match start_lba.checked_add(block_count) {
        Some(end_lba) => end_lba <= total_blocks,
        None => false,
    }
}

/// An entry that describes a data partition: neither the GPT guard, nor an
/// extended partition, nor empty.
pub open spec fn logical_usable(p: MbrPartitionEntry) -> bool {
    p.partition_type != 0xee && !extended_type(p.partition_type) && p.start_lba != 0 && p.total_sectors != 0
}

/// The first data partition among the entries from `index` on.
pub open spec fn logical_entry_from(block: Seq<u8>, index: int) -> Option<MbrPartitionEntry>
    decreases 4 - index,
{
    if index >= 4 || index < 0 {
        None
    } else {
        let e = mbr_entry(block, index);
        if e is Some && logical_usable(e->0) {
            e
        } else {
            logical_entry_from(block, index + 1)
        }
    }
}

/// The data partition that an EBR describes: its first usable entry.
pub open spec fn logical_entry(block: Seq<u8>) -> Option<MbrPartitionEntry> {
    logical_entry_from(block, 0)
}

/// Finds the data partition that the EBR in `block` describes.
pub fn find_logical_mbr_partition(block: &[u8]) -> (r: Option<MbrPartitionEntry>)
    ensures
        r == logical_entry(block@),
{
    let mut index: usize = 0;
    while index < MBR_PRIMARY_PARTITION_COUNT
        invariant
            index <= 4,
            logical_entry(block@) == logical_entry_from(block@, index as int),
        decreases 4 - index,
    {
        let entry = parse_mbr_partition(block, index);
        if let Some(p) = entry {
            if p.partition_type != 0xee && !is_extended_mbr_partition(p.partition_type) && p.start_lba != 0
                && p.total_sectors != 0 {
                return Some(p);
            }
        }
        index += 1;
    }
    None
}

/// An entry that links to the next EBR of the chain.
pub open spec fn link_usable(p: MbrPartitionEntry) -> bool {
    extended_type(p.partition_type) && p.start_lba != 0 && p.total_sectors != 0
}

/// The next EBR that the links from entry `index` on lead to. A link is
/// relative to the start of the extended partition; one that overflows ends
/// the search, and one that points back at `current`, past the disk or out of
/// the extended partition is passed over.
pub open spec fn next_ebr_from(
    block: Seq<u8>,
    extended: PartitionRange,
    current: u64,
    total_blocks: u64,
    index: int,
) -> Option<u64>
    decreases 4 - index,
{
    if index >= 4 || index < 0 {
        None
    } else {
        let e = mbr_entry(block, index);
        if e is Some && link_usable(e->0) {
            let next = extended.start_lba + e->0.start_lba;
            if next > u64::MAX {
                None
            } else if next == current || next >= total_blocks || !contains_lba(extended, next as u64) {
                next_ebr_from(block, extended, current, total_blocks, index + 1)
            } else {
                Some(next as u64)
            }
        } else {
            next_ebr_from(block, extended, current, total_blocks, index + 1)
        }
    }
}

/// The LBA of the EBR that follows the one in `block`, read at `current`.
pub open spec fn next_ebr(block: Seq<u8>, extended: PartitionRange, current: u64, total_blocks: u64) -> Option<u64> {
    next_ebr_from(block, extended, current, total_blocks, 0)
}

/// Finds the LBA of the EBR that follows the one in `block`, read at
/// `current_ebr_lba`, on a disk of `total_blocks` blocks.
pub fn find_next_ebr_lba(block: &[u8], extended: PartitionRange, current_ebr_lba: u64, total_blocks: u64) -> (r: Option<u64>)
    ensures
        r == next_ebr(block@, extended, current_ebr_lba, total_blocks),
{
    let mut index: usize = 0;
    while index < MBR_PRIMARY_PARTITION_COUNT
        invariant
            index <= 4,
            next_ebr(block@, extended, current_ebr_lba, total_blocks) == next_ebr_from(
                block@,
                extended,
                current_ebr_lba,
                total_blocks,
                index as int,
            ),
        decreases 4 - index,
    {
        let entry = parse_mbr_partition(block, index);
        if let Some(p) = entry {
            if is_extended_mbr_partition(p.partition_type) && p.start_lba != 0 && p.total_sectors != 0 {
                let next_ebr_lba = match extended.start_lba.checked_add(p.start_lba as u64) {
                    Some(v) => v,
                    None => return None,
                };
                if !(next_ebr_lba == current_ebr_lba || next_ebr_lba >= total_blocks || !range_contains_lba(
                    extended,
                    next_ebr_lba,
                )) {
                    return Some(next_ebr_lba);
                }
            }
        }
        index += 1;
    }
    None
}

/// Appends an MBR partition to `out` and reports that it was added.
pub fn push_mbr_partition_candidate(out: &mut Vec<PartitionCandidate>, number: u32, start_lba: u64, block_count: u64) -> (r: bool)
    ensures
        r,
        final(out)@ == old(out)@.push(
            PartitionCandidate { number, start_lba, block_count, format: PartitionFormat::Mbr },
        ),
{
    out.push(PartitionCandidate { number, start_lba, block_count, format: PartitionFormat::Mbr });
    true
}

// ---------------------------------------------------------------------------
// GPT
// ---------------------------------------------------------------------------

/// The `"EFI PART"` signature of a GPT header.
pub open spec fn efi_part() -> Seq<u8> {
    seq![0x45u8, 0x46, 0x49, 0x20, 0x50, 0x41, 0x52, 0x54]
}

/// One of the four primary entries of `block` has the GPT guard type `0xEE`.
pub open spec fn protective_mbr(block: Seq<u8>) -> bool {
    &&& mbr_signature(block)
    &&& (block[mbr_entry_offset(0) + 4] == 0xee || block[mbr_entry_offset(1) + 4] == 0xee
        || block[mbr_entry_offset(2) + 4] == 0xee || block[mbr_entry_offset(3) + 4] == 0xee)
}

/// Whether `first_block` is a protective MBR.
pub fn has_protective_mbr(first_block: &[u8]) -> (r: bool)
    ensures
        r == protective_mbr(first_block@),
{
    if !has_mbr_signature(first_block) {
        return false;
    }
    let mut index: usize = 0;
    while index < MBR_PRIMARY_PARTITION_COUNT
        invariant
            index <= 4,
            mbr_signature(first_block@),
            forall|j: int| 0 <= j < index ==> first_block@[mbr_entry_offset(j) + 4] != 0xee,
        decreases 4 - index,
    {
        if first_block[MBR_PARTITION_TABLE_OFFSET + index * MBR_PARTITION_ENTRY_SIZE + 4] == 0xee {
            return true;
        }
        index += 1;
    }
    assert(first_block@[mbr_entry_offset(0) + 4] != 0xee);
    assert(first_block@[mbr_entry_offset(1) + 4] != 0xee);
    assert(first_block@[mbr_entry_offset(2) + 4] != 0xee);
    assert(first_block@[mbr_entry_offset(3) + 4] != 0xee);
    false
}

/// Where the GPT partition entries lie and how they are laid out.
#[derive(Debug, Clone, Copy, PartialEq, Eq, Structural)]
pub struct GptEntryArrayRequest {
    /// First block of the entry array.
    pub entry_lba: u64,
    /// Bytes to read from `entry_lba` on: `entry_count * entry_size`.
    pub byte_len: usize,
    pub entry_count: usize,
    pub entry_size: usize,
}

impl GptEntryArrayRequest {
    /// The layout limits that [`gpt_entry_array_request`] enforces.
    pub open spec fn valid(self) -> bool {
        &&& 128 <= self.entry_size <= 4096
        &&& self.entry_count <= 4096
        &&& self.byte_len == self.entry_count * self.entry_size
        &&& 0 < self.byte_len <= 0x10_0000
    }
}

/// The entry array that the GPT header `header` (read at LBA 1) points to,
/// when `first_block` is a protective MBR and the header is sound: it has the
/// signature, a size of at least 92 bytes that fits the block, and entries of
/// 128 to 4096 bytes. At most 4096 entries are read, and at most 1 MiB; an
/// empty array gives `None`.
pub open spec fn gpt_request(first_block: Seq<u8>, header: Seq<u8>) -> Option<GptEntryArrayRequest> {
    if !protective_mbr(first_block) || header.len() < 16 || header.subrange(0, 8) != efi_part() {
        None
    } else {
        let header_size = le_u32(header, 12);
        if header_size < 92 || header_size > header.len() {
            None
        } else {
            let entry_size = le_u32(header, 84);
            let count = le_u32(header, 80);
            let entry_count = if count > 4096 { 4096 } else { count as int };
            if entry_size < 128 || entry_size > 4096 || entry_count * entry_size == 0 || entry_count * entry_size
                > 0x10_0000 {
                None
            } else {
                Some(
                    GptEntryArrayRequest {
                        entry_lba: le_u64(header, 72),
                        byte_len: (entry_count * entry_size) as usize,
                        entry_count: entry_count as usize,
                        entry_size: entry_size as usize,
                    },
                )
            }
        }
    }
}

/// The GPT partitions come in slot order: each is numbered by its slot, so
/// numbers rise strictly and stay within the slots read, and each spans at
/// least one block from a non-zero start.
pub proof fn lemma_gpt_candidates_in_slot_order(bytes: Seq<u8>, count: int, entry_size: int)
    requires
        0 <= count <= u32::MAX,
    ensures
        ({
            let found = gpt_candidates(bytes, count, entry_size);
            &&& forall|i: int|
                0 <= i < found.len() ==> 1 <= #[trigger] found[i].number <= count && found[i].start_lba >= 1
                    && found[i].block_count >= 1 && found[i].format == PartitionFormat::Gpt
            &&& forall|i: int, j: int| 0 <= i < j < found.len() ==> #[trigger] found[i].number < #[trigger] found[j].number
        }),
    decreases count,
{
    if count > 0 {
        lemma_gpt_candidates_in_slot_order(bytes, count - 1, entry_size);
        let before = gpt_candidates(bytes, count - 1, entry_size);
        let found = gpt_candidates(bytes, count, entry_size);
        match gpt_entry_candidate(bytes, count - 1, entry_size) {
            Some(c) => {
                assert(found == before.push(c));
                assert(c.number == count);
                assert forall|i: int, j: int| 0 <= i < j < found.len() implies #[trigger] found[i].number
                    < #[trigger] found[j].number by {
                    if j < before.len() {
                        assert(found[i] == before[i] && found[j] == before[j]);
                    } else {
                        assert(found[i] == before[i]);
                        assert(1 <= before[i].number <= count - 1);
                    }
                }
                assert forall|i: int| 0 <= i < found.len() implies 1 <= #[trigger] found[i].number <= count
                    && found[i].start_lba >= 1 && found[i].block_count >= 1 && found[i].format
                    == PartitionFormat::Gpt by {
                    if i < before.len() {
                        assert(found[i] == before[i]);
                    }
                }
            },
            None => {
                assert(found == before);
            },
        }
        assert(forall|i: int|
            0 <= i < found.len() ==> 1 <= #[trigger] found[i].number <= count && found[i].start_lba >= 1
                && found[i].block_count >= 1 && found[i].format == PartitionFormat::Gpt);
        assert(forall|i: int, j: int| 0 <= i < j < found.len() ==> #[trigger] found[i].number < #[trigger] found[j].number);
    }
}

/// Decides, from the first block of a disk and its GPT header block, which
/// bytes hold the partition entries; `None` when the disk has no usable GPT.
pub fn gpt_entry_array_request(first_block: &[u8], header: &[u8]) -> (r: Option<GptEntryArrayRequest>)
    ensures
        r == gpt_request(first_block@, header@),
        r matches Some(q) ==> q.valid(),
{
    if !has_protective_mbr(first_block) || header.len() < 16 {
        return None;
    }
    if !(header[0] == 0x45 && header[1] == 0x46 && header[2] == 0x49 && header[3] == 0x20 && header[4] == 0x50
        && header[5] == 0x41 && header[6] == 0x52 && header[7] == 0x54) {
        proof {
            let c = header@.subrange(0, 8);
            assert(c[0] == header@[0] && c[1] == header@[1] && c[2] == header@[2] && c[3] == header@[3]);
            assert(c[4] == header@[4] && c[5] == header@[5] && c[6] == header@[6] && c[7] == header@[7]);
        }
        return None;
    }
    assert(header@.subrange(0, 8) =~= efi_part());
    let header_size = match read_le_u32(header, 12) {
        Some(v) => v,
        None => return None,
    };
    if header_size < GPT_HEADER_MIN_SIZE || header_size as usize > header.len() {
        return None;
    }
    let entry_lba = match read_le_u64(header, GPT_PARTITION_ENTRY_LBA_OFFSET) {
        Some(v) => v,
        None => return None,
    };
    let num_entries = match read_le_u32(header, GPT_NUM_PARTITION_ENTRIES_OFFSET) {
        Some(v) => v,
        None => return None,
    };
    let entry_size = match read_le_u32(header, GPT_PARTITION_ENTRY_SIZE_OFFSET) {
        Some(v) => v as usize,
        None => return None,
    };
    if entry_size < GPT_MIN_PARTITION_ENTRY_SIZE || entry_size > GPT_MAX_PARTITION_ENTRY_SIZE {
        return None;
    }
    let num_entries: usize = if num_entries as usize > GPT_MAX_PARTITION_ENTRIES {
        GPT_MAX_PARTITION_ENTRIES
    } else {
        num_entries as usize
    };
    assert(num_entries * entry_size <= 4096 * 4096) by (nonlinear_arith)
        requires
            num_entries <= 4096,
            entry_size <= 4096,
    ;
    let entry_bytes_len = num_entries * entry_size;
    if entry_bytes_len == 0 || entry_bytes_len > GPT_MAX_PARTITION_ENTRY_ARRAY_BYTES {
        return None;
    }
    Some(GptEntryArrayRequest { entry_lba, byte_len: entry_bytes_len, entry_count: num_entries, entry_size })
}

/// The first 16 bytes (the type GUID) are all zero: the slot is unused.
pub open spec fn gpt_slot_unused(entry: Seq<u8>) -> bool {
    forall|j: int| 0 <= j < 16 ==> entry[j] == 0
}

/// What GPT entry `index` describes: a partition numbered `index + 1`, unless
/// the slot is unused, starts at LBA 0 or ends before it starts.
pub open spec fn gpt_entry_candidate(bytes: Seq<u8>, index: int, entry_size: int) -> Option<PartitionCandidate> {
    let entry = bytes.subrange(index * entry_size, index * entry_size + entry_size);
    let start_lba = le_u64(entry, 32);
    let end_lba = le_u64(entry, 40);
    if gpt_slot_unused(entry) || start_lba == 0 || end_lba < start_lba {
        None
    } else {
        Some(
            PartitionCandidate {
                number: (index + 1) as u32,
                start_lba,
                block_count: (end_lba - start_lba + 1) as u64,
                format: PartitionFormat::Gpt,
            },
        )
    }
}

/// The partitions of the first `count` GPT entries, in order.
pub open spec fn gpt_candidates(bytes: Seq<u8>, count: int, entry_size: int) -> Seq<PartitionCandidate>
    decreases count,
{
    if count <= 0 {
        Seq::empty()
    } else {
        let before = gpt_candidates(bytes, count - 1, entry_size);
        match gpt_entry_candidate(bytes, count - 1, entry_size) {
            Some(c) => before.push(c),
            None => before,
        }
    }
}

/// How many entries of the request lie wholly inside the bytes read.
pub open spec fn gpt_entries_read(bytes: Seq<u8>, request: GptEntryArrayRequest) -> int {
    let whole = (bytes.len() as int) / (request.entry_size as int);
    if request.entry_count < whole {
        request.entry_count as int
    } else {
        whole
    }
}

/// Reads what GPT entry `index` describes.
pub fn read_gpt_entry_candidate(entry_bytes: &[u8], index: usize, entry_size: usize) -> (r: Option<PartitionCandidate>)
    requires
        entry_size >= 128,
        index * entry_size + entry_size <= entry_bytes@.len(),
    ensures
        r == gpt_entry_candidate(entry_bytes@, index as int, entry_size as int),
{
    let len = entry_bytes.len();
    assert(index + 1 <= len) by (nonlinear_arith)
        requires
            index * entry_size + entry_size <= len,
            entry_size >= 128,
    ;
    let offset = index * entry_size;
    let ghost entry = entry_bytes@.subrange(offset as int, offset + entry_size);
    let mut unused = true;
    let mut j: usize = 0;
    while j < 16
        invariant
            j <= 16,
            offset + entry_size <= len,
            len == entry_bytes@.len(),
            entry_size >= 128,
            entry == entry_bytes@.subrange(offset as int, offset + entry_size),
            unused == (forall|t: int| 0 <= t < j ==> entry[t] == 0),
        decreases 16 - j,
    {
        assert(entry[j as int] == entry_bytes@[offset + j]);
        if entry_bytes[offset + j] != 0 {
            unused = false;
        }
        j += 1;
    }
    let start_lba = read_le_u64(entry_bytes, offset + 32);
    let end_lba = read_le_u64(entry_bytes, offset + 40);
    proof {
        assert(le_u64(entry, 32) == le_u64(entry_bytes@, offset + 32));
        assert(le_u64(entry, 40) == le_u64(entry_bytes@, offset + 40));
    }
    match (start_lba, end_lba) {
        (Some(start_lba), Some(end_lba)) => {
            if !unused && start_lba != 0 && end_lba >= start_lba {
                Some(
                    PartitionCandidate {
                        number: (index + 1) as u32,
                        start_lba,
                        block_count: end_lba - start_lba + 1,
                        format: PartitionFormat::Gpt,
                    },
                )
            } else {
                None
            }
        },
        _ => None,
    }
}

/// One step of the GPT scan: what an entry describes (`candidate`) joins the
/// list when room for it was reserved (`reserved`). Returns whether the scan
/// goes on: it stops at a partition that found no room.
pub fn gpt_scan_step(out: &mut Vec<PartitionCandidate>, candidate: Option<PartitionCandidate>, reserved: bool) -> (r:
    bool)
    ensures
        match candidate {
            None => r && final(out)@ == old(out)@,
            Some(c) => if reserved {
                r && final(out)@ == old(out)@.push(c)
            } else {
                !r && final(out)@ == old(out)@
            },
        },
{
    match candidate {
        None => true,
        Some(c) => {
            if reserved {
                out.push(c);
                true
            } else {
                false
            }
        },
    }
}

/// The partitions described by the GPT entries in `entry_bytes`, laid out as
/// `request` says. Entries that the bytes do not wholly hold are not read.
/// Room is reserved for each partition before it is added; when none can be,
/// the list ends there: the result is then the partitions of the entries
/// before that one, which describes a partition.
pub fn gpt_partition_candidates(entry_bytes: &[u8], request: GptEntryArrayRequest) -> (r: Vec<PartitionCandidate>)
    requires
        request.valid(),
    ensures
        exists|k: int|
            0 <= k <= gpt_entries_read(entry_bytes@, request) && r@ == gpt_candidates(
                entry_bytes@,
                k,
                request.entry_size as int,
            ) && (k == gpt_entries_read(entry_bytes@, request) || gpt_entry_candidate(
                entry_bytes@,
                k,
                request.entry_size as int,
            ) is Some),
{
    let entry_size = request.entry_size;
    let len = entry_bytes.len();
    let count = if request.entry_count < len / entry_size {
        request.entry_count
    } else {
        len / entry_size
    };
    assert(count * entry_size <= len) by (nonlinear_arith)
        requires
            count <= len / entry_size,
            entry_size > 0,
    ;
    let mut out: Vec<PartitionCandidate> = Vec::new();
    let mut index: usize = 0;
    while index < count
        invariant
            index <= count,
            count == gpt_entries_read(entry_bytes@, request),
            count * entry_size <= len,
            len == entry_bytes@.len(),
            entry_size == request.entry_size,
            request.valid(),
            out@ == gpt_candidates(entry_bytes@, index as int, entry_size as int),
        decreases count - index,
    {
        assert(index * entry_size + entry_size <= count * entry_size) by (nonlinear_arith)
            requires
                index < count,
        ;
        let candidate = read_gpt_entry_candidate(entry_bytes, index, entry_size);
        let reserved = match candidate {
            Some(_) => out.try_reserve(1).is_ok(),
            None => true,
        };
        if !gpt_scan_step(&mut out, candidate, reserved) {
            return out;
        }
        index += 1;
    }
    out
}


// ---------------------------------------------------------------------------
// MBR scan
// ---------------------------------------------------------------------------

/// What the primary table entry `index` adds, given whether room could be
/// reserved for it (`reserved`) and the state so far: partitions, extended
/// ranges, and whether the scan has stopped. Entry `index` is partition
/// `index + 1`; the GPT guard, empty entries and those at LBA 0 are passed
/// over. An extended range that finds no room is dropped; a partition that
/// finds none stops the scan.
pub open spec fn primary_step(
    block: Seq<u8>,
    index: int,
    reserved: bool,
    state: (Seq<PartitionCandidate>, Seq<PartitionRange>, bool),
) -> (Seq<PartitionCandidate>, Seq<PartitionRange>, bool) {
    let (cands, ranges, stopped) = state;
    let e = mbr_entry(block, index);
    if stopped || e is None || e->0.partition_type == 0xee || e->0.start_lba == 0 || e->0.total_sectors == 0 {
        state
    } else if extended_type(e->0.partition_type) {
        if reserved {
            (cands, ranges.push(PartitionRange { start_lba: e->0.start_lba as u64, block_count: e->0.total_sectors as u64 }), false)
        } else {
            state
        }
    } else if reserved {
        (
            cands.push(
                PartitionCandidate {
                    number: (index + 1) as u32,
                    start_lba: e->0.start_lba as u64,
                    block_count: e->0.total_sectors as u64,
                    format: PartitionFormat::Mbr,
                },
            ),
            ranges,
            false,
        )
    } else {
        (cands, ranges, true)
    }
}

/// The state after the first `count` primary entries, `reserved[i]` telling
/// whether room could be reserved at entry `i`.
pub open spec fn primary_scan(block: Seq<u8>, reserved: Seq<bool>, count: int) -> (
    Seq<PartitionCandidate>,
    Seq<PartitionRange>,
    bool,
)
    decreases count,
{
    if count <= 0 {
        (Seq::empty(), Seq::empty(), false)
    } else {
        primary_step(block, count - 1, reserved[count - 1], primary_scan(block, reserved, count - 1))
    }
}

proof fn lemma_primary_scan_prefix(block: Seq<u8>, a: Seq<bool>, b: Seq<bool>, count: int)
    requires
        0 <= count <= a.len(),
        count <= b.len(),
        forall|j: int| 0 <= j < count ==> a[j] == b[j],
    ensures
        primary_scan(block, a, count) == primary_scan(block, b, count),
    decreases count,
{
    if count > 0 {
        lemma_primary_scan_prefix(block, a, b, count - 1);
    }
}

/// Primary entry `index` is an extended partition that the scan keeps: the
/// only kind of entry for which room is reserved before it is kept.
pub open spec fn live_extended_entry(block: Seq<u8>, index: int) -> bool {
    mbr_entry(block, index) matches Some(e) && e.partition_type != 0xee && e.start_lba != 0 && e.total_sectors != 0
        && extended_type(e.partition_type)
}

/// One step of reading the primary table: applies entry `index` of `block`
/// to the partitions, extended ranges and stop flag found so far, given
/// whether room for it was reserved (`reserved`).
pub fn primary_entry_step(
    candidates: &mut Vec<PartitionCandidate>,
    extended: &mut Vec<PartitionRange>,
    stopped: &mut bool,
    block: &[u8],
    index: usize,
    reserved: bool,
)
    ensures
        (final(candidates)@, final(extended)@, *final(stopped)) == primary_step(
            block@,
            index as int,
            reserved,
            (old(candidates)@, old(extended)@, *old(stopped)),
        ),
{
    if *stopped {
        return;
    }
    let entry = parse_mbr_partition(block, index);
    if let Some(p) = entry {
        if !(p.partition_type == 0xee || p.start_lba == 0 || p.total_sectors == 0) {
            if is_extended_mbr_partition(p.partition_type) {
                if reserved {
                    extended.push(PartitionRange { start_lba: p.start_lba as u64, block_count: p.total_sectors as u64 });
                }
            } else if reserved {
                push_mbr_partition_candidate(candidates, (index + 1) as u32, p.start_lba as u64, p.total_sectors as u64);
            } else {
                *stopped = true;
            }
        }
    }
}

/// An MBR scan as a value: the partitions found so far, the extended ranges
/// to walk, the one being walked, the EBRs visited in it, the EBR to read next
/// and the number the next logical partition gets.
pub struct MbrScanView {
    pub total_blocks: u64,
    pub candidates: Seq<PartitionCandidate>,
    pub extended: Seq<PartitionRange>,
    pub ext_index: int,
    pub visited: Seq<u64>,
    pub pending: Option<u64>,
    pub logical_number: u32,
}

/// The EBR at `lba` may be read while walking `ext`: fewer than 128 were read
/// in this range, it lies on the disk and in the range, and it was not read
/// before.
pub open spec fn may_visit(v: MbrScanView, ext: PartitionRange, lba: u64) -> bool {
    v.visited.len() < 128 && lba < v.total_blocks && contains_lba(ext, lba) && !v.visited.contains(lba)
}

/// Starts walking the extended ranges from `index` on: the first whose start
/// may be visited becomes the current range, its first EBR the next read. With
/// none left the scan is finished.
pub open spec fn enter_range(v: MbrScanView, index: int) -> MbrScanView
    decreases v.extended.len() - index,
{
    if index < 0 || index >= v.extended.len() {
        MbrScanView { ext_index: v.extended.len() as int, visited: Seq::empty(), pending: None, ..v }
    } else {
        let ext = v.extended[index];
        let w = MbrScanView { ext_index: index, visited: Seq::empty(), pending: None, ..v };
        if may_visit(w, ext, ext.start_lba) {
            MbrScanView { visited: seq![ext.start_lba], pending: Some(ext.start_lba), ..w }
        } else {
            enter_range(v, index + 1)
        }
    }
}

/// Goes on in the current range with the EBR at `next`, when there is one
/// and it may be visited; otherwise moves to the next range.
pub open spec fn continue_range(v: MbrScanView, next: Option<u64>) -> MbrScanView {
    if next is Some && 0 <= v.ext_index < v.extended.len() && may_visit(v, v.extended[v.ext_index], next->0) {
        MbrScanView { visited: v.visited.push(next->0), pending: Some(next->0), ..v }
    } else {
        enter_range(v, v.ext_index + 1)
    }
}

/// The scan of a disk of `total_blocks` blocks whose first block is `block`,
/// before any EBR was read. Logical partitions are numbered from 5.
pub open spec fn scan_start(block: Seq<u8>, total_blocks: u64, reserved: Seq<bool>) -> MbrScanView {
    let p = primary_scan(block, reserved, 4);
    enter_range(
        MbrScanView {
            total_blocks,
            candidates: p.0,
            extended: p.1,
            ext_index: 0,
            visited: Seq::empty(),
            pending: None,
            logical_number: 5,
        },
        0,
    )
}

/// The bytes of a block that was read, `None` for a failed read.
pub open spec fn read_result(ebr: Option<&[u8]>) -> Option<Seq<u8>> {
    match ebr {
        Some(b) => Some(b@),
        None => None,
    }
}

/// The scan after the pending EBR was read (`ebr`, `None` when the read
/// failed), `reserved` telling whether room for a logical partition could be
/// reserved. A failed read, a block without the boot signature or a partition
/// that finds no room ends the current range. A logical partition counts when
/// it lies inside the extended range and on the disk; its start is relative to
/// its EBR. Then the walk follows the link to the next EBR.
pub open spec fn after_block(v: MbrScanView, ebr: Option<Seq<u8>>, reserved: bool) -> MbrScanView {
    if v.pending is None || !(0 <= v.ext_index < v.extended.len()) {
        v
    } else if ebr is None || !mbr_signature(ebr->0) {
        enter_range(v, v.ext_index + 1)
    } else {
        let b = ebr->0;
        let current = v.pending->0;
        let ext = v.extended[v.ext_index];
        let logical = logical_entry(b);
        let start = if logical is Some { current + logical->0.start_lba } else { 0 };
        let count = if logical is Some { logical->0.total_sectors as u64 } else { 0 };
        let adds = logical is Some && start <= u64::MAX && contains_extent(ext, start as u64, count) && fits_disk(
            start as u64,
            count,
            v.total_blocks,
        );
        if adds && !reserved {
            enter_range(v, v.ext_index + 1)
        } else {
            let w = if adds {
                MbrScanView {
                    candidates: v.candidates.push(
                        PartitionCandidate {
                            number: v.logical_number,
                            start_lba: start as u64,
                            block_count: count,
                            format: PartitionFormat::Mbr,
                        },
                    ),
                    logical_number: if v.logical_number == u32::MAX {
                        u32::MAX
                    } else {
                        (v.logical_number + 1) as u32
                    },
                    ..v
                }
            } else {
                v
            };
            continue_range(w, next_ebr(b, ext, current, v.total_blocks))
        }
    }
}

proof fn lemma_enter_range_keeps(v: MbrScanView, index: int)
    ensures
        ({
            let w = enter_range(v, index);
            &&& w.candidates == v.candidates
            &&& w.extended == v.extended
            &&& w.total_blocks == v.total_blocks
            &&& w.logical_number == v.logical_number
            &&& w.ext_index >= index || w.ext_index == v.extended.len()
            &&& w.pending is Some ==> 0 <= w.ext_index < v.extended.len() && w.visited.len() == 1
            &&& w.pending is None ==> w.ext_index == v.extended.len()
        }),
    decreases v.extended.len() - index,
{
    if 0 <= index < v.extended.len() {
        let ext = v.extended[index];
        let w = MbrScanView { ext_index: index, visited: Seq::empty(), pending: None, ..v };
        if !may_visit(w, ext, ext.start_lba) {
            lemma_enter_range_keeps(v, index + 1);
        }
    }
}

/// Each EBR read moves the scan on: it either goes on in the same extended
/// partition with one more EBR visited, of which there are at most 128, or
/// it moves to a later partition, or it finishes. So a scan reads at most
/// 128 EBRs per extended partition and then ends.
pub proof fn lemma_block_read_makes_progress(v: MbrScanView, ebr: Option<Seq<u8>>, reserved: bool)
    requires
        v.pending is Some,
        0 <= v.ext_index < v.extended.len(),
        v.visited.len() <= 128,
    ensures
        ({
            let w = after_block(v, ebr, reserved);
            ||| w.pending is None
            ||| w.ext_index > v.ext_index
            ||| (w.ext_index == v.ext_index && w.visited.len() == v.visited.len() + 1 && w.visited.len() <= 128)
        }),
{
    lemma_enter_range_keeps(v, v.ext_index + 1);
    if !(ebr is None || !mbr_signature(ebr->0)) {
        let b = ebr->0;
        let current = v.pending->0;
        let ext = v.extended[v.ext_index];
        let logical = logical_entry(b);
        let start = if logical is Some { current + logical->0.start_lba } else { 0 };
        let count = if logical is Some { logical->0.total_sectors as u64 } else { 0 };
        let adds = logical is Some && start <= u64::MAX && contains_extent(ext, start as u64, count) && fits_disk(
            start as u64,
            count,
            v.total_blocks,
        );
        if !(adds && !reserved) {
            let w = if adds {
                MbrScanView {
                    candidates: v.candidates.push(
                        PartitionCandidate {
                            number: v.logical_number,
                            start_lba: start as u64,
                            block_count: count,
                            format: PartitionFormat::Mbr,
                        },
                    ),
                    logical_number: if v.logical_number == u32::MAX {
                        u32::MAX
                    } else {
                        (v.logical_number + 1) as u32
                    },
                    ..v
                }
            } else {
                v
            };
            lemma_enter_range_keeps(w, w.ext_index + 1);
        }
    }
}

/// A logical partition that an EBR adds to the scan is numbered in turn and
/// lies inside the extended partition being walked and on the disk; nothing
/// else changes in the list found so far.
pub proof fn lemma_logical_partition_in_extended_range(v: MbrScanView, ebr: Option<Seq<u8>>, reserved: bool)
    requires
        after_block(v, ebr, reserved).candidates.len() > v.candidates.len(),
    ensures
        ({
            let found = after_block(v, ebr, reserved).candidates;
            let c = found.last();
            let ext = v.extended[v.ext_index];
            &&& found == v.candidates.push(c)
            &&& c.number == v.logical_number
            &&& c.format == PartitionFormat::Mbr
            &&& contains_extent(ext, c.start_lba, c.block_count)
            &&& fits_disk(c.start_lba, c.block_count, v.total_blocks)
        }),
{
    lemma_enter_range_keeps(v, v.ext_index + 1);
    if v.pending is Some && 0 <= v.ext_index < v.extended.len() && !(ebr is None || !mbr_signature(ebr->0)) {
        let b = ebr->0;
        let current = v.pending->0;
        let ext = v.extended[v.ext_index];
        let logical = logical_entry(b);
        let start = if logical is Some { current + logical->0.start_lba } else { 0 };
        let count = if logical is Some { logical->0.total_sectors as u64 } else { 0 };
        let adds = logical is Some && start <= u64::MAX && contains_extent(ext, start as u64, count) && fits_disk(
            start as u64,
            count,
            v.total_blocks,
        );
        if !(adds && !reserved) {
            let w = if adds {
                MbrScanView {
                    candidates: v.candidates.push(
                        PartitionCandidate {
                            number: v.logical_number,
                            start_lba: start as u64,
                            block_count: count,
                            format: PartitionFormat::Mbr,
                        },
                    ),
                    logical_number: if v.logical_number == u32::MAX {
                        u32::MAX
                    } else {
                        (v.logical_number + 1) as u32
                    },
                    ..v
                }
            } else {
                v
            };
            lemma_enter_range_keeps(w, w.ext_index + 1);
        }
    }
}

/// A scan of the MBR partitions of a disk: the primary table, then the chain
/// of EBRs in each extended partition, at most 128 per partition.
pub struct MbrScan {
    total_blocks: u64,
    candidates: Vec<PartitionCandidate>,
    extended: Vec<PartitionRange>,
    ext_index: usize,
    visited: [u64; 128],
    visited_len: usize,
    pending: Option<u64>,
    logical_number: u32,
}

impl View for MbrScan {
    type V = MbrScanView;

    closed spec fn view(&self) -> MbrScanView {
        MbrScanView {
            total_blocks: self.total_blocks,
            candidates: self.candidates@,
            extended: self.extended@,
            ext_index: self.ext_index as int,
            visited: self.visited@.take(self.visited_len as int),
            pending: self.pending,
            logical_number: self.logical_number,
        }
    }
}

impl MbrScan {
    /// The scan keeps its bookkeeping consistent.
    pub closed spec fn wf(&self) -> bool {
        &&& self.visited_len <= 128
        &&& self.ext_index <= self.extended@.len()
        &&& self.pending is Some ==> self.ext_index < self.extended@.len()
    }

    /// Starts the scan of a disk of `total_blocks` blocks whose first block is
    /// `first_block`: reads the primary table and picks the first EBR to read.
    /// Room is reserved for each extended range before it is kept; an
    /// extended range that finds none is dropped (see `primary_entry_step`).
    pub fn new(first_block: &[u8], total_blocks: u64) -> (r: MbrScan)
        ensures
            r.wf(),
            exists|reserved: Seq<bool>|
                reserved.len() == 4 && r@ == scan_start(first_block@, total_blocks, reserved) && forall|i: int|
                    0 <= i < 4 && !#[trigger] reserved[i] ==> live_extended_entry(first_block@, i),
    {
        let mut candidates: Vec<PartitionCandidate> = Vec::new();
        let mut extended: Vec<PartitionRange> = Vec::new();
        let ghost mut reserved: Seq<bool> = Seq::empty();
        let mut stopped = false;
        let mut index: usize = 0;
        while index < MBR_PRIMARY_PARTITION_COUNT
            invariant
                index <= 4,
                reserved.len() == index,
                (candidates@, extended@, stopped) == primary_scan(first_block@, reserved, index as int),
                forall|i: int| 0 <= i < index && !#[trigger] reserved[i] ==> live_extended_entry(first_block@, i),
            decreases 4 - index,
        {
            let ghost before = reserved;
            let entry = parse_mbr_partition(first_block, index);
            let needs_room = match entry {
                Some(p) => !(p.partition_type == 0xee || p.start_lba == 0 || p.total_sectors == 0)
                    && is_extended_mbr_partition(p.partition_type),
                None => false,
            };
            let ok = if needs_room {
                extended.try_reserve(1).is_ok()
            } else {
                true
            };
            primary_entry_step(&mut candidates, &mut extended, &mut stopped, first_block, index, ok);
            proof {
                reserved = before.push(ok);
                lemma_primary_scan_prefix(first_block@, before, reserved, index as int);
            }
            index += 1;
        }
        let mut scan = MbrScan {
            total_blocks,
            candidates,
            extended,
            ext_index: 0,
            visited: [0u64; 128],
            visited_len: 0,
            pending: None,
            logical_number: MBR_LOGICAL_PARTITION_NUMBER_BASE,
        };
        proof {
            assert(scan@.visited =~= Seq::<u64>::empty());
        }
        scan.enter_range(0);
        assert(scan@ == scan_start(first_block@, total_blocks, reserved));
        scan
    }

    /// Whether `lba` was visited in the current range.
    fn visited_contains(&self, lba: u64) -> (r: bool)
        requires
            self.wf(),
        ensures
            r == self@.visited.contains(lba),
    {
        let mut i: usize = 0;
        while i < self.visited_len
            invariant
                self.wf(),
                i <= self.visited_len,
                forall|j: int| 0 <= j < i ==> self.visited@[j] != lba,
            decreases self.visited_len - i,
        {
            if self.visited[i] == lba {
                assert(self@.visited[i as int] == lba);
                return true;
            }
            i += 1;
        }
        assert forall|j: int| 0 <= j < self@.visited.len() implies self@.visited[j] != lba by {
            assert(self@.visited[j] == self.visited@[j]);
        }
        false
    }

    /// Moves to the first extended range from `index` on whose start may be
    /// visited.
    fn enter_range(&mut self, index: usize)
        requires
            old(self).wf(),
        ensures
            final(self).wf(),
            final(self)@ == enter_range(old(self)@, index as int),
    {
        let ghost v0 = self@;
        let mut i = index;
        self.visited_len = 0;
        self.pending = None;
        while i < self.extended.len()
            invariant
                self.visited_len == 0,
                self.pending is None,
                self.ext_index <= self.extended@.len(),
                self.total_blocks == v0.total_blocks,
                self.candidates@ == v0.candidates,
                self.extended@ == v0.extended,
                self.logical_number == v0.logical_number,
                enter_range(v0, index as int) == enter_range(v0, i as int),
                v0 == old(self)@,
            decreases self.extended@.len() - i,
        {
            let ext = self.extended[i];
            let start = ext.start_lba;
            let ghost w = MbrScanView { ext_index: i as int, visited: Seq::empty(), pending: None, ..v0 };
            assert(!w.visited.contains(start));
            if start < self.total_blocks && range_contains_lba(ext, start) {
                self.ext_index = i;
                self.visited[0] = start;
                self.visited_len = 1;
                self.pending = Some(start);
                assert(self@.visited =~= seq![start]);
                assert(may_visit(w, ext, start));
                assert(enter_range(v0, i as int) == MbrScanView { visited: seq![start], pending: Some(start), ..w });
                assert(self@.candidates == w.candidates);
                assert(self@ == MbrScanView { visited: seq![start], pending: Some(start), ..w });
                return;
            }
            i += 1;
        }
        self.ext_index = self.extended.len();
        assert(self@.visited =~= Seq::<u64>::empty());
    }

    /// Goes on in the current range with the EBR at `next`, or moves on to the
    /// next range.
    fn continue_range(&mut self, next: Option<u64>)
        requires
            old(self).wf(),
            old(self).ext_index < old(self).extended@.len(),
        ensures
            final(self).wf(),
            final(self)@ == continue_range(old(self)@, next),
    {
        if let Some(lba) = next {
            let ext = self.extended[self.ext_index];
            if self.visited_len < MBR_MAX_LOGICAL_PARTITIONS && lba < self.total_blocks && range_contains_lba(ext, lba)
                && !self.visited_contains(lba) {
                let ghost old_visited = self@.visited;
                self.visited[self.visited_len] = lba;
                self.visited_len = self.visited_len + 1;
                self.pending = Some(lba);
                assert(self@.visited =~= old_visited.push(lba));
                return;
            }
        }
        let len = self.extended.len();
        assert(self.ext_index < len);
        let next_index = self.ext_index + 1;
        self.enter_range(next_index);
    }

    /// The LBA of the EBR the caller should read next; `None` once the scan is
    /// finished.
    pub fn next_read(&self) -> (r: Option<u64>)
        ensures
            r == self@.pending,
    {
        self.pending
    }

    /// Takes the block read at [`MbrScan::next_read`] (`None` when the read
    /// failed) and moves the scan on.
    pub fn block_read(&mut self, ebr: Option<&[u8]>)
        requires
            old(self).wf(),
        ensures
            final(self).wf(),
            final(self)@ == after_block(old(self)@, read_result(ebr), true),
    {
        let current = match self.pending {
            Some(lba) => lba,
            None => return,
        };
        let len = self.extended.len();
        assert(self.ext_index < len);
        let next_index = self.ext_index + 1;
        let block = match ebr {
            Some(b) => b,
            None => {
                self.enter_range(next_index);
                return;
            },
        };
        if !has_mbr_signature(block) {
            self.enter_range(next_index);
            return;
        }
        let ext = self.extended[self.ext_index];
        if let Some(logical) = find_logical_mbr_partition(block) {
            if let Some(start_lba) = current.checked_add(logical.start_lba as u64) {
                let block_count = logical.total_sectors as u64;
                if range_contains_extent(ext, start_lba, block_count) && range_fits_disk(
                    start_lba,
                    block_count,
                    self.total_blocks,
                ) {
                    if !push_mbr_partition_candidate(&mut self.candidates, self.logical_number, start_lba, block_count) {
                        self.enter_range(next_index);
                        return;
                    }
                    self.logical_number = self.logical_number.saturating_add(1);
                }
            }
        }
        let next = find_next_ebr_lba(block, ext, current, self.total_blocks);
        self.continue_range(next);
    }

    /// The partitions found so far, in order: primary ones by table slot, then
    /// logical ones by extended range and chain position.
    pub fn candidates(&self) -> (r: &Vec<PartitionCandidate>)
        ensures
            r@ == self@.candidates,
    {
        &self.candidates
    }

    /// Ends the scan, giving the partitions found.
    pub fn into_candidates(self) -> (r: Vec<PartitionCandidate>)
        ensures
            r@ == self@.candidates,
    {
        self.candidates
    }
}

} // verus!
