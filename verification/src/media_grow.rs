//! Growing a freshly written release image to fill its disk: the GPT and
//! exFAT structures read and rewritten for it.
//!
//! Errors are the messages the boot log shows.

pub mod exfat;

use crate::bytes::{
    le_u32, le_u32_bytes, le_u64, le_u64_bytes, lemma_le_u32_read_after_write, lemma_le_u32_write_elsewhere,
    lemma_le_u64_read_after_write, lemma_le_u64_write_elsewhere, read_le_u32, read_le_u64, spliced, zeroed_vec,
};
use vstd::prelude::*;
use vstd::string::StringSliceAdditionalSpecFns;

verus! {

pub const GPT_HEADER_LBA: u64 = 1;
pub const GPT_HEADER_SIZE: usize = 92;
pub const GPT_ENTRY_MAX_BYTES: usize = 1048576;
pub const GPT_ENTRY_NAME_OFFSET: usize = 56;
pub const GPT_ENTRY_NAME_LEN: usize = 72;
pub const GPT_ENTRY_START_LBA_OFFSET: usize = 32;
pub const GPT_ENTRY_END_LBA_OFFSET: usize = 40;
pub const GPT_ENTRY_TYPE_GUID_LEN: usize = 16;
pub const EXFAT_BOOT_BACKUP_LBA: u64 = 12;
pub const EXFAT_CHECKSUM_SECTOR: usize = 11;

/// The GPT header signature, `"EFI PART"`.
pub open spec fn gpt_signature() -> Seq<u8> {
    seq![0x45u8, 0x46, 0x49, 0x20, 0x50, 0x41, 0x52, 0x54]
}

/// Where the GPT primary header says the entries and the backup header are.
#[derive(Debug, Clone, Copy, PartialEq, Eq, Structural)]
pub struct GptInfo {
    pub old_backup_lba: u64,
    pub last_usable_lba: u64,
    pub entry_lba: u64,
    pub entry_count: usize,
    pub entry_size: usize,
}

/// A partition entry's place in the array and on the disk.
#[derive(Debug, Clone, Copy, PartialEq, Eq, Structural)]
pub struct PartitionInfo {
    pub index: usize,
    pub start_lba: u64,
    pub end_lba: u64,
}

/// The new size of the data partition's exFAT volume.
#[derive(Debug, Clone, Copy, PartialEq, Eq, Structural)]
pub struct ExfatGrowth {
    pub old_blocks: u64,
    pub new_blocks: u64,
    pub cluster_count: u32,
}

/// One bit step of the reflected CRC-32 (polynomial `0xedb88320`).
pub open spec fn crc_bit(crc: u32) -> u32 {
    (crc >> 1u32) ^ (0xedb8_8320u32 & (0u32.wrapping_sub(crc & 1)))
}

/// `n` bit steps.
pub open spec fn crc_bits(crc: u32, n: nat) -> u32
    decreases n,
{
    if n == 0 {
        crc
    } else {
        crc_bits(crc_bit(crc), (n - 1) as nat)
    }
}

/// The CRC register after the bytes of `s`, from `crc`.
pub open spec fn crc_update(crc: u32, s: Seq<u8>) -> u32
    decreases s.len(),
{
    if s.len() == 0 {
        crc
    } else {
        crc_bits(crc_update(crc, s.drop_last()) ^ (s.last() as u32), 8)
    }
}

/// The CRC-32 (as used by GPT and zlib) of `s`.
pub open spec fn crc32_of(s: Seq<u8>) -> u32 {
    !crc_update(0xffff_ffff, s)
}

/// CRC-32 of `bytes`.
pub fn crc32(bytes: &[u8]) -> (r: u32)
    ensures
        r == crc32_of(bytes@),
{
    let mut crc: u32 = 0xffff_ffff;
    let mut i: usize = 0;
    while i < bytes.len()
        invariant
            i <= bytes@.len(),
            crc == crc_update(0xffff_ffff, bytes@.take(i as int)),
        decreases bytes@.len() - i,
    {
        assert(bytes@.take(i + 1).drop_last() =~= bytes@.take(i as int));
        let ghost start = crc ^ (bytes@[i as int] as u32);
        crc = crc ^ (bytes[i] as u32);
        let mut k: usize = 0;
        while k < 8
            invariant
                k <= 8,
                crc_bits(crc, (8 - k) as nat) == crc_bits(start, 8),
            decreases 8 - k,
        {
            let mask = 0u32.wrapping_sub(crc & 1);
            crc = (crc >> 1u32) ^ (0xedb8_8320u32 & mask);
            k += 1;
        }
        i += 1;
    }
    assert(bytes@.take(bytes@.len() as int) =~= bytes@);
    !crc
}

/// `bytes` with `value` written little-endian at `offset`, or the error
/// when it does not fit.
pub open spec fn write_u32_step(bytes: Seq<u8>, offset: int, value: u32) -> (Seq<u8>, Result<(), &'static str>) {
    if offset + 4 <= bytes.len() {
        (spliced(bytes, offset, le_u32_bytes(value)), Ok(()))
    } else {
        (bytes, Err("write is out of bounds"))
    }
}

/// `bytes` with `value` written little-endian at `offset`, or the error
/// when it does not fit.
pub open spec fn write_u64_step(bytes: Seq<u8>, offset: int, value: u64) -> (Seq<u8>, Result<(), &'static str>) {
    if offset + 8 <= bytes.len() {
        (spliced(bytes, offset, le_u64_bytes(value)), Ok(()))
    } else {
        (bytes, Err("write is out of bounds"))
    }
}

/// Writes `value` little-endian at `offset`; fails, changing nothing, when
/// it does not fit.
pub fn write_le_u32(bytes: &mut [u8], offset: usize, value: u32) -> (r: Result<(), &'static str>)
    requires
        offset + 4 <= usize::MAX,
    ensures
        (final(bytes)@, r) == write_u32_step(old(bytes)@, offset as int, value),
{
    if offset + 4 > bytes.len() {
        return Err("write is out of bounds");
    }
    crate::bytes::write_u32(bytes, offset, value);
    Ok(())
}

/// Writes `value` little-endian at `offset`; fails, changing nothing, when
/// it does not fit.
pub fn write_le_u64(bytes: &mut [u8], offset: usize, value: u64) -> (r: Result<(), &'static str>)
    requires
        offset + 8 <= usize::MAX,
    ensures
        (final(bytes)@, r) == write_u64_step(old(bytes)@, offset as int, value),
{
    if offset + 8 > bytes.len() {
        return Err("write is out of bounds");
    }
    crate::bytes::write_u64(bytes, offset, value);
    Ok(())
}

/// `value / divisor` rounded up, with `value` saturated at `usize::MAX`
/// before rounding; `0` for a zero divisor.
pub fn div_round_up(value: usize, divisor: usize) -> (r: usize)
    ensures
        divisor == 0 ==> r == 0,
        divisor != 0 ==> r == (if value + divisor - 1 > usize::MAX { usize::MAX as int } else { value + divisor - 1 }) / (divisor as int),
{
    if divisor == 0 {
        0
    } else {
        value.saturating_add(divisor - 1) / divisor
    }
}

/// What the primary GPT header `h` describes, for disks of `block_size`-byte
/// blocks.
pub open spec fn gpt_header_info(h: Seq<u8>, block_size: u32) -> Result<GptInfo, &'static str> {
    if h.len() < 8 || h.subrange(0, 8) != gpt_signature() {
        Err("missing GPT header")
    } else if h.len() < 16 {
        Err("missing GPT header size")
    } else {
        let header_size = le_u32(h, 12) as int;
        if !(GPT_HEADER_SIZE <= header_size <= block_size) {
            Err("unsupported GPT header size")
        } else if h.len() < 20 {
            Err("missing GPT header CRC")
        } else if h.len() < header_size {
            Err("truncated GPT header")
        } else if crc32_of(spliced(h.subrange(0, header_size), 16, le_u32_bytes(0))) != le_u32(h, 16) {
            Err("GPT header CRC mismatch")
        } else if le_u64(h, 24) != GPT_HEADER_LBA {
            Err("GPT primary header is not at LBA 1")
        } else {
            let entry_count = le_u32(h, 80) as int;
            let entry_size = le_u32(h, 84) as int;
            if entry_count == 0 || entry_size < 128 || entry_size % 8 != 0 {
                Err("unsupported GPT entry geometry")
            } else if entry_count * entry_size > GPT_ENTRY_MAX_BYTES {
                Err("GPT entry array is too large")
            } else {
                Ok(GptInfo {
                    old_backup_lba: le_u64(h, 32),
                    last_usable_lba: le_u64(h, 48),
                    entry_lba: le_u64(h, 72),
                    entry_count: entry_count as usize,
                    entry_size: entry_size as usize,
                })
            }
        }
    }
}

/// Checks and reads the primary GPT header.
pub fn parse_gpt_header(header: &[u8], block_size: u32) -> (r: Result<GptInfo, &'static str>)
    ensures
        r == gpt_header_info(header@, block_size),
{
    if header.len() < 8 || !(header[0] == 0x45 && header[1] == 0x46 && header[2] == 0x49 && header[3] == 0x20
        && header[4] == 0x50 && header[5] == 0x41 && header[6] == 0x52 && header[7] == 0x54) {
        proof {
            if header@.len() >= 8 {
                assert(header@.subrange(0, 8)[0] == header@[0]);
                assert(header@.subrange(0, 8)[7] == header@[7]);
            }
        }
        return Err("missing GPT header");
    }
    assert(header@.subrange(0, 8) =~= gpt_signature());
    let header_size = match read_le_u32(header, 12) {
        Some(v) => v as usize,
        None => return Err("missing GPT header size"),
    };
    if !(GPT_HEADER_SIZE <= header_size && header_size <= block_size as usize) {
        return Err("unsupported GPT header size");
    }
    let expected_crc = match read_le_u32(header, 16) {
        Some(v) => v,
        None => return Err("missing GPT header CRC"),
    };
    if header.len() < header_size {
        return Err("truncated GPT header");
    }
    let mut scratch = zeroed_vec(header_size);
    let mut i: usize = 0;
    while i < header_size
        invariant
            i <= header_size <= header@.len(),
            scratch@.len() == header_size,
            forall|j: int| 0 <= j < i ==> scratch@[j] == header@[j],
        decreases header_size - i,
    {
        scratch.set(i, header[i]);
        i += 1;
    }
    assert(scratch@ =~= header@.subrange(0, header_size as int));
    crate::bytes::write_u32(scratch.as_mut_slice(), 16, 0);
    if crc32(scratch.as_slice()) != expected_crc {
        return Err("GPT header CRC mismatch");
    }
    let current = match read_le_u64(header, 24) {
        Some(v) => v,
        None => return Err("missing GPT current LBA"),
    };
    if current != GPT_HEADER_LBA {
        return Err("GPT primary header is not at LBA 1");
    }
    let entry_count = match read_le_u32(header, 80) {
        Some(v) => v as usize,
        None => return Err("missing GPT entry count"),
    };
    let entry_size = match read_le_u32(header, 84) {
        Some(v) => v as usize,
        None => return Err("missing GPT entry size"),
    };
    if entry_count == 0 || entry_size < 128 || entry_size % 8 != 0 {
        return Err("unsupported GPT entry geometry");
    }
    let too_large = match entry_count.checked_mul(entry_size) {
        Some(bytes) => bytes > GPT_ENTRY_MAX_BYTES,
        None => true,
    };
    if too_large {
        return Err("GPT entry array is too large");
    }
    let old_backup_lba = match read_le_u64(header, 32) {
        Some(v) => v,
        None => return Err("missing GPT backup LBA"),
    };
    let last_usable_lba = match read_le_u64(header, 48) {
        Some(v) => v,
        None => return Err("missing GPT last usable LBA"),
    };
    let entry_lba = match read_le_u64(header, 72) {
        Some(v) => v,
        None => return Err("missing GPT entry LBA"),
    };
    Ok(GptInfo { old_backup_lba, last_usable_lba, entry_lba, entry_count, entry_size })
}

/// The partition name stored in `entry` (UTF-16LE, zero padded) is exactly
/// the ASCII string `expected`.
pub open spec fn gpt_name_is(entry: Seq<u8>, expected: Seq<u8>) -> bool {
    let start = GPT_ENTRY_NAME_OFFSET as int;
    &&& entry.len() >= start + GPT_ENTRY_NAME_LEN
    &&& 2 * expected.len() <= GPT_ENTRY_NAME_LEN
    &&& forall|k: int| 0 <= k < expected.len() ==> entry[start + 2 * k] == expected[k] && entry[start + 2 * k + 1] == 0
    &&& forall|j: int| start + 2 * expected.len() <= j < start + GPT_ENTRY_NAME_LEN ==> entry[j] == 0
}

/// Whether the partition name in `entry` is exactly `expected`.
pub fn gpt_name_eq(entry: &[u8], expected: &str) -> (r: bool)
    ensures
        r == gpt_name_is(entry@, expected.spec_bytes()),
{
    if entry.len() < GPT_ENTRY_NAME_OFFSET + GPT_ENTRY_NAME_LEN {
        return false;
    }
    let name = expected.as_bytes();
    let start = GPT_ENTRY_NAME_OFFSET;
    let mut k: usize = 0;
    while k < name.len()
        invariant
            entry@.len() >= start + GPT_ENTRY_NAME_LEN,
            start == GPT_ENTRY_NAME_OFFSET,
            name@ == expected.spec_bytes(),
            k <= name@.len(),
            2 * k <= GPT_ENTRY_NAME_LEN,
            forall|m: int| 0 <= m < k ==> entry@[start + 2 * m] == name@[m] && entry@[start + 2 * m + 1] == 0,
        decreases name@.len() - k,
    {
        if 2 * k + 1 >= GPT_ENTRY_NAME_LEN {
            return false;
        }
        if entry[start + 2 * k] != name[k] || entry[start + 2 * k + 1] != 0 {
            return false;
        }
        k += 1;
    }
    let mut j = start + 2 * k;
    while j < start + GPT_ENTRY_NAME_LEN
        invariant
            start == GPT_ENTRY_NAME_OFFSET,
            entry@.len() >= start + GPT_ENTRY_NAME_LEN,
            start + 2 * k <= j <= start + GPT_ENTRY_NAME_LEN,
            name@ == expected.spec_bytes(),
            k == name@.len(),
            forall|m: int| start + 2 * k <= m < j ==> entry@[m] == 0,
        decreases start + GPT_ENTRY_NAME_LEN - j,
    {
        if entry[j] != 0 {
            return false;
        }
        j += 1;
    }
    true
}

/// Entry `index` of the array, `None` past its end.
pub open spec fn entry_at(entries: Seq<u8>, index: int, size: int) -> Option<Seq<u8>> {
    if index * size + size <= entries.len() {
        Some(entries.subrange(index * size, index * size + size))
    } else {
        None
    }
}

/// The entry's type GUID is all zero: the slot is unused.
pub open spec fn entry_unused(entry: Seq<u8>) -> bool {
    entry.len() >= GPT_ENTRY_TYPE_GUID_LEN && forall|k: int| 0 <= k < GPT_ENTRY_TYPE_GUID_LEN ==> entry[k] == 0
}

/// Scans entries from `index` on for the `NEXBOOT_EFI` partition and the
/// last `NEXBOOT_DATA` partition.
pub open spec fn scan_release_entries(entries: Seq<u8>, count: int, size: int, index: int, saw_efi: bool, data: Option<PartitionInfo>) -> Result<(bool, Option<PartitionInfo>), &'static str>
    decreases count - index,
{
    if index < 0 || index >= count {
        Ok((saw_efi, data))
    } else if index * size > usize::MAX {
        Err("GPT entry offset overflow")
    } else {
        match entry_at(entries, index, size) {
            None => Err("truncated GPT entry"),
            Some(entry) => if entry_unused(entry) {
                scan_release_entries(entries, count, size, index + 1, saw_efi, data)
            } else if entry.len() < GPT_ENTRY_START_LBA_OFFSET + 8 {
                Err("missing partition start")
            } else if entry.len() < GPT_ENTRY_END_LBA_OFFSET + 8 {
                Err("missing partition end")
            } else {
                let info = PartitionInfo {
                    index: index as usize,
                    start_lba: le_u64(entry, GPT_ENTRY_START_LBA_OFFSET as int),
                    end_lba: le_u64(entry, GPT_ENTRY_END_LBA_OFFSET as int),
                };
                if gpt_name_is(entry, "NEXBOOT_EFI".spec_bytes()) {
                    scan_release_entries(entries, count, size, index + 1, true, data)
                } else if gpt_name_is(entry, "NEXBOOT_DATA".spec_bytes()) {
                    scan_release_entries(entries, count, size, index + 1, saw_efi, Some(info))
                } else {
                    scan_release_entries(entries, count, size, index + 1, saw_efi, data)
                }
            },
        }
    }
}

/// Checks from `index` on that no used partition starts after `data_start`.
pub open spec fn nothing_after(entries: Seq<u8>, count: int, size: int, index: int, data_start: u64) -> Result<(), &'static str>
    decreases count - index,
{
    if index < 0 || index >= count {
        Ok(())
    } else if index * size > usize::MAX {
        Err("GPT entry offset overflow")
    } else {
        match entry_at(entries, index, size) {
            None => Err("truncated GPT entry"),
            Some(entry) => if entry_unused(entry) {
                nothing_after(entries, count, size, index + 1, data_start)
            } else if entry.len() < GPT_ENTRY_START_LBA_OFFSET + 8 {
                Err("missing partition start")
            } else if le_u64(entry, GPT_ENTRY_START_LBA_OFFSET as int) > data_start {
                Err("non-empty partition follows NEXBOOT_DATA")
            } else {
                nothing_after(entries, count, size, index + 1, data_start)
            },
        }
    }
}

/// The data partition of a release image: the last `NEXBOOT_DATA`
/// partition, on a disk that also has `NEXBOOT_EFI` and no partition after
/// the data partition.
pub open spec fn release_data_partition(entries: Seq<u8>, count: int, size: int) -> Result<PartitionInfo, &'static str> {
    match scan_release_entries(entries, count, size, 0, false, None) {
        Err(e) => Err(e),
        Ok((saw_efi, data)) => if !saw_efi {
            Err("missing NEXBOOT_EFI partition")
        } else {
            match data {
                None => Err("missing NEXBOOT_DATA partition"),
                Some(d) => match nothing_after(entries, count, size, 0, d.start_lba) {
                    Err(e) => Err(e),
                    Ok(_) => Ok(d),
                },
            }
        },
    }
}

/// Entry `index`, `None` past the end of the array.
fn entry_slice(entries: &[u8], index: usize, size: usize) -> (r: Result<Option<Vec<u8>>, &'static str>)
    ensures
        index * size > usize::MAX ==> r == Err::<Option<Vec<u8>>, &'static str>("GPT entry offset overflow"),
        index * size <= usize::MAX ==> r is Ok && match r->Ok_0 {
            Some(e) => entry_at(entries@, index as int, size as int) == Some(e@),
            None => entry_at(entries@, index as int, size as int) is None,
        },
{
    let offset = match index.checked_mul(size) {
        Some(v) => v,
        None => return Err("GPT entry offset overflow"),
    };
    if offset > entries.len() || size > entries.len() - offset {
        return Ok(None);
    }
    let mut out: Vec<u8> = Vec::new();
    let n = entries.len();
    let mut i: usize = 0;
    while i < size
        invariant
            n == entries@.len(),
            i <= size,
            offset + size <= entries@.len(),
            out@ == entries@.subrange(offset as int, offset + i),
        decreases size - i,
    {
        out.push(entries[offset + i]);
        i += 1;
    }
    Ok(Some(out))
}

/// Whether the entry's type GUID is all zero.
fn is_unused_entry(entry: &[u8]) -> (r: bool)
    ensures
        r == entry_unused(entry@),
{
    if entry.len() < GPT_ENTRY_TYPE_GUID_LEN {
        return false;
    }
    let mut k: usize = 0;
    while k < GPT_ENTRY_TYPE_GUID_LEN
        invariant
            k <= GPT_ENTRY_TYPE_GUID_LEN <= entry@.len(),
            forall|m: int| 0 <= m < k ==> entry@[m] == 0,
        decreases GPT_ENTRY_TYPE_GUID_LEN - k,
    {
        if entry[k] != 0 {
            return false;
        }
        k += 1;
    }
    true
}

/// Finds the data partition of a release image in the GPT entry array.
pub fn find_release_data_partition(entries: &[u8], entry_count: usize, entry_size: usize) -> (r: Result<PartitionInfo, &'static str>)
    ensures
        r == release_data_partition(entries@, entry_count as int, entry_size as int),
{
    let mut saw_efi = false;
    let mut data: Option<PartitionInfo> = None;
    let mut index: usize = 0;
    while index < entry_count
        invariant
            index <= entry_count,
            scan_release_entries(entries@, entry_count as int, entry_size as int, index as int, saw_efi, data)
                == scan_release_entries(entries@, entry_count as int, entry_size as int, 0, false, None),
        decreases entry_count - index,
    {
        let entry = match entry_slice(entries, index, entry_size) {
            Err(e) => return Err(e),
            Ok(None) => return Err("truncated GPT entry"),
            Ok(Some(entry)) => entry,
        };
        if is_unused_entry(entry.as_slice()) {
            index += 1;
            continue;
        }
        let start_lba = match read_le_u64(entry.as_slice(), GPT_ENTRY_START_LBA_OFFSET) {
            Some(v) => v,
            None => return Err("missing partition start"),
        };
        let end_lba = match read_le_u64(entry.as_slice(), GPT_ENTRY_END_LBA_OFFSET) {
            Some(v) => v,
            None => return Err("missing partition end"),
        };
        let info = PartitionInfo { index, start_lba, end_lba };
        if gpt_name_eq(entry.as_slice(), "NEXBOOT_EFI") {
            saw_efi = true;
            index += 1;
            continue;
        }
        if gpt_name_eq(entry.as_slice(), "NEXBOOT_DATA") {
            data = Some(info);
        }
        index += 1;
    }
    if !saw_efi {
        return Err("missing NEXBOOT_EFI partition");
    }
    let data = match data {
        Some(d) => d,
        None => return Err("missing NEXBOOT_DATA partition"),
    };
    assert(scan_release_entries(entries@, entry_count as int, entry_size as int, 0, false, None)
        == Ok::<(bool, Option<PartitionInfo>), &'static str>((true, Some(data))));
    let mut index: usize = 0;
    while index < entry_count
        invariant
            index <= entry_count,
            scan_release_entries(entries@, entry_count as int, entry_size as int, 0, false, None)
                == Ok::<(bool, Option<PartitionInfo>), &'static str>((true, Some(data))),
            nothing_after(entries@, entry_count as int, entry_size as int, index as int, data.start_lba)
                == nothing_after(entries@, entry_count as int, entry_size as int, 0, data.start_lba),
        decreases entry_count - index,
    {
        let entry = match entry_slice(entries, index, entry_size) {
            Err(e) => return Err(e),
            Ok(None) => return Err("truncated GPT entry"),
            Ok(Some(entry)) => entry,
        };
        if is_unused_entry(entry.as_slice()) {
            index += 1;
            continue;
        }
        let start_lba = match read_le_u64(entry.as_slice(), GPT_ENTRY_START_LBA_OFFSET) {
            Some(v) => v,
            None => return Err("missing partition start"),
        };
        if start_lba > data.start_lba {
            return Err("non-empty partition follows NEXBOOT_DATA");
        }
        index += 1;
    }
    Ok(data)
}

/// Sets the last LBA of entry `index` in the entry array.
pub fn update_gpt_entries(entries: &mut [u8], entry_size: usize, index: usize, new_end_lba: u64) -> (r: Result<(), &'static str>)
    requires
        index * entry_size + GPT_ENTRY_END_LBA_OFFSET > usize::MAX || index * entry_size + GPT_ENTRY_END_LBA_OFFSET + 8 <= usize::MAX,
    ensures
        index * entry_size + GPT_ENTRY_END_LBA_OFFSET > usize::MAX ==> r == Err::<(), &'static str>("GPT entry offset overflows")
            && final(entries)@ == old(entries)@,
        index * entry_size + GPT_ENTRY_END_LBA_OFFSET <= usize::MAX ==> (final(entries)@, r) == write_u64_step(
            old(entries)@, index * entry_size + GPT_ENTRY_END_LBA_OFFSET, new_end_lba),
{
    let offset = match index.checked_mul(entry_size) {
        Some(v) => match v.checked_add(GPT_ENTRY_END_LBA_OFFSET) {
            Some(o) => o,
            None => return Err("GPT entry offset overflows"),
        },
        None => {
            assert(index * entry_size + GPT_ENTRY_END_LBA_OFFSET > usize::MAX) by (nonlinear_arith)
                requires index * entry_size > usize::MAX;
            return Err("GPT entry offset overflows");
        },
    };
    write_le_u64(entries, offset, new_end_lba)
}

/// The header with its CRC field recomputed over its first `header_size`
/// bytes (the size it records).
pub open spec fn header_crc_step(h: Seq<u8>) -> (Seq<u8>, Result<(), &'static str>) {
    if h.len() < 16 {
        (h, Err("missing GPT header size"))
    } else if le_u32(h, 12) > h.len() {
        (h, Err("truncated GPT header"))
    } else if h.len() < 20 {
        (h, Err("write is out of bounds"))
    } else {
        let zeroed = spliced(h, 16, le_u32_bytes(0));
        (spliced(zeroed, 16, le_u32_bytes(crc32_of(zeroed.subrange(0, le_u32(h, 12) as int)))), Ok(()))
    }
}

/// Recomputes the header CRC.
pub fn update_header_crc(header: &mut [u8]) -> (r: Result<(), &'static str>)
    ensures
        (final(header)@, r) == header_crc_step(old(header)@),
{
    let header_size = match read_le_u32(header, 12) {
        Some(v) => v as usize,
        None => return Err("missing GPT header size"),
    };
    if header_size > header.len() {
        return Err("truncated GPT header");
    }
    write_le_u32(header, 16, 0)?;
    let mut prefix: Vec<u8> = Vec::new();
    let mut i: usize = 0;
    while i < header_size
        invariant
            i <= header_size <= header@.len(),
            prefix@ == header@.subrange(0, i as int),
        decreases header_size - i,
    {
        prefix.push(header[i]);
        i += 1;
    }
    let crc = crc32(prefix.as_slice());
    write_le_u32(header, 16, crc)
}

/// A header whose CRC was recomputed passes the CRC check: the CRC of its
/// first `header_size` bytes, with the CRC field read as zero, is the CRC it
/// records. The size must take in the CRC field.
pub proof fn lemma_recomputed_crc_checks(h: Seq<u8>)
    requires
        header_crc_step(h).1 is Ok,
        20 <= le_u32(h, 12),
    ensures
        ({
            let h2 = header_crc_step(h).0;
            let size = le_u32(h2, 12) as int;
            &&& size == le_u32(h, 12)
            &&& h2.len() == h.len()
            &&& h2.subrange(0, 16) == h.subrange(0, 16)
            &&& forall|j: int| 20 <= j < h.len() ==> #[trigger] h2[j] == h[j]
            &&& crc32_of(spliced(h2.subrange(0, size), 16, le_u32_bytes(0))) == le_u32(h2, 16)
        }),
{
    let size = le_u32(h, 12) as int;
    let z = spliced(h, 16, le_u32_bytes(0));
    let c = crc32_of(z.subrange(0, size));
    let h2 = spliced(z, 16, le_u32_bytes(c));
    assert(header_crc_step(h).0 == h2);
    lemma_le_u32_write_elsewhere(h, 16, le_u32_bytes(0), 12);
    lemma_le_u32_write_elsewhere(z, 16, le_u32_bytes(c), 12);
    lemma_le_u32_read_after_write(z, 16, c);
    assert(spliced(h2.subrange(0, size), 16, le_u32_bytes(0)) =~= z.subrange(0, size));
    assert(h2.subrange(0, 16) =~= h.subrange(0, 16));
}

/// The primary header rewritten for a grown disk still parses, and records
/// the new backup header LBA and last usable LBA with everything else as it
/// was.
pub proof fn lemma_updated_primary_header_parses(
    h: Seq<u8>,
    block_size: u32,
    backup_lba: u64,
    last_usable_lba: u64,
    entry_crc: u32,
)
    requires
        gpt_header_info(h, block_size) is Ok,
    ensures
        ({
            let step = then_crc(
                then_u32(then_u64(write_u64_step(h, 32, backup_lba), 48, last_usable_lba), 88, entry_crc),
            );
            let old_info = gpt_header_info(h, block_size)->Ok_0;
            &&& step.1 is Ok
            &&& gpt_header_info(step.0, block_size) == Ok::<GptInfo, &'static str>(
                GptInfo { old_backup_lba: backup_lba, last_usable_lba, ..old_info },
            )
        }),
{
    let size = le_u32(h, 12) as int;
    let a = spliced(h, 32, le_u64_bytes(backup_lba));
    let b = spliced(a, 48, le_u64_bytes(last_usable_lba));
    let c = spliced(b, 88, le_u32_bytes(entry_crc));
    assert(write_u64_step(h, 32, backup_lba) == (a, Ok::<(), &'static str>(())));
    assert(then_u64(write_u64_step(h, 32, backup_lba), 48, last_usable_lba) == (b, Ok::<(), &'static str>(())));
    assert(then_u32(then_u64(write_u64_step(h, 32, backup_lba), 48, last_usable_lba), 88, entry_crc) == (c, Ok::<
        (),
        &'static str,
    >(())));
    // The size field and the fields the parser reads, through the three writes.
    lemma_le_u32_write_elsewhere(h, 32, le_u64_bytes(backup_lba), 12);
    lemma_le_u32_write_elsewhere(a, 48, le_u64_bytes(last_usable_lba), 12);
    lemma_le_u32_write_elsewhere(b, 88, le_u32_bytes(entry_crc), 12);
    assert(le_u32(c, 12) == size);
    lemma_recomputed_crc_checks(c);
    let d = header_crc_step(c).0;
    assert(then_crc(then_u32(then_u64(write_u64_step(h, 32, backup_lba), 48, last_usable_lba), 88, entry_crc))
        == header_crc_step(c));
    assert(d.subrange(0, 8) =~= h.subrange(0, 8)) by {
        assert(d.subrange(0, 16).subrange(0, 8) =~= d.subrange(0, 8));
        assert(c.subrange(0, 16).subrange(0, 8) =~= c.subrange(0, 8));
        assert(c.subrange(0, 8) =~= h.subrange(0, 8));
    }
    // LBA 1 at byte 24.
    lemma_le_u64_write_elsewhere(h, 32, le_u64_bytes(backup_lba), 24);
    lemma_le_u64_write_elsewhere(a, 48, le_u64_bytes(last_usable_lba), 24);
    lemma_le_u64_write_elsewhere(b, 88, le_u32_bytes(entry_crc), 24);
    assert(le_u64(d, 24) == le_u64(c, 24));
    // Entry count and size at bytes 80 and 84.
    lemma_le_u32_write_elsewhere(h, 32, le_u64_bytes(backup_lba), 80);
    lemma_le_u32_write_elsewhere(a, 48, le_u64_bytes(last_usable_lba), 80);
    lemma_le_u32_write_elsewhere(b, 88, le_u32_bytes(entry_crc), 80);
    lemma_le_u32_write_elsewhere(h, 32, le_u64_bytes(backup_lba), 84);
    lemma_le_u32_write_elsewhere(a, 48, le_u64_bytes(last_usable_lba), 84);
    lemma_le_u32_write_elsewhere(b, 88, le_u32_bytes(entry_crc), 84);
    assert(le_u32(d, 80) == le_u32(c, 80));
    assert(le_u32(d, 84) == le_u32(c, 84));
    // The new backup and usable LBAs, and the entry array LBA.
    lemma_le_u64_read_after_write(h, 32, backup_lba);
    lemma_le_u64_write_elsewhere(a, 48, le_u64_bytes(last_usable_lba), 32);
    lemma_le_u64_write_elsewhere(b, 88, le_u32_bytes(entry_crc), 32);
    assert(le_u64(d, 32) == le_u64(c, 32));
    lemma_le_u64_read_after_write(a, 48, last_usable_lba);
    lemma_le_u64_write_elsewhere(b, 88, le_u32_bytes(entry_crc), 48);
    assert(le_u64(d, 48) == le_u64(c, 48));
    lemma_le_u64_write_elsewhere(h, 32, le_u64_bytes(backup_lba), 72);
    lemma_le_u64_write_elsewhere(a, 48, le_u64_bytes(last_usable_lba), 72);
    lemma_le_u64_write_elsewhere(b, 88, le_u32_bytes(entry_crc), 72);
    assert(le_u64(d, 72) == le_u64(c, 72));
}

/// Chains a write after an earlier step.
pub open spec fn then_u64(step: (Seq<u8>, Result<(), &'static str>), offset: int, value: u64) -> (Seq<u8>, Result<(), &'static str>) {
    match step.1 {
        Err(e) => (step.0, Err(e)),
        Ok(_) => write_u64_step(step.0, offset, value),
    }
}

/// Chains a write after an earlier step.
pub open spec fn then_u32(step: (Seq<u8>, Result<(), &'static str>), offset: int, value: u32) -> (Seq<u8>, Result<(), &'static str>) {
    match step.1 {
        Err(e) => (step.0, Err(e)),
        Ok(_) => write_u32_step(step.0, offset, value),
    }
}

/// Chains the CRC update after an earlier step.
pub open spec fn then_crc(step: (Seq<u8>, Result<(), &'static str>)) -> (Seq<u8>, Result<(), &'static str>) {
    match step.1 {
        Err(e) => (step.0, Err(e)),
        Ok(_) => header_crc_step(step.0),
    }
}

/// Points the primary header at the new backup header and usable end, with
/// the new entry array CRC.
pub fn update_primary_header(header: &mut [u8], backup_lba: u64, last_usable_lba: u64, entry_crc: u32) -> (r: Result<(), &'static str>)
    ensures
        (final(header)@, r) == then_crc(then_u32(then_u64(write_u64_step(old(header)@, 32, backup_lba), 48, last_usable_lba), 88, entry_crc)),
{
    write_le_u64(header, 32, backup_lba)?;
    write_le_u64(header, 48, last_usable_lba)?;
    write_le_u32(header, 88, entry_crc)?;
    update_header_crc(header)
}

/// Turns a copy of the primary header into the backup header stored at
/// `current_lba`, with entries at `entries_lba`.
pub fn update_backup_header(header: &mut [u8], current_lba: u64, entries_lba: u64) -> (r: Result<(), &'static str>)
    ensures
        (final(header)@, r) == then_crc(then_u64(then_u64(write_u64_step(old(header)@, 24, current_lba), 32, GPT_HEADER_LBA), 72, entries_lba)),
{
    write_le_u64(header, 24, current_lba)?;
    write_le_u64(header, 32, GPT_HEADER_LBA)?;
    write_le_u64(header, 72, entries_lba)?;
    update_header_crc(header)
}

/// The `"EXFAT   "` file system name of an exFAT boot sector.
pub open spec fn exfat_name() -> Seq<u8> {
    seq![0x45u8, 0x58, 0x46, 0x41, 0x54, 0x20, 0x20, 0x20]
}

/// How far the exFAT volume at `data` can grow into `available_blocks`
/// blocks, from its boot sector `boot`: as many clusters as fit after the
/// cluster heap, bounded by what the FAT can address.
pub open spec fn exfat_growth(boot: Seq<u8>, block_size: u32, data: PartitionInfo, available_blocks: u64) -> Result<ExfatGrowth, &'static str> {
    if boot.len() < 11 || boot.subrange(0, 3) != seq![0xebu8, 0x76, 0x90] || boot.subrange(3, 11) != exfat_name() {
        Err("NEXTDATA is not exFAT")
    } else if boot.len() < 72 {
        Err("missing exFAT partition offset")
    } else if le_u64(boot, 64) != data.start_lba {
        Err("exFAT partition offset does not match GPT")
    } else if boot.len() <= 108 {
        Err("missing exFAT sector shift")
    } else if boot[108] >= 64 {
        Err("invalid exFAT sector shift")
    } else if (1u64 << boot[108]) != block_size {
        Err("exFAT sector size does not match media")
    } else if boot.len() <= 109 {
        Err("missing exFAT cluster shift")
    } else if boot[109] >= 64 {
        Err("invalid exFAT cluster shift")
    } else {
        let sectors_per_cluster = (1u64 << boot[109]) as int;
        let fat_length = le_u32(boot, 84) as int;
        let heap = le_u32(boot, 88) as int;
        if fat_length == 0 || heap <= 24 || available_blocks <= heap {
            Err("invalid growable exFAT geometry")
        } else if fat_length * block_size / 4 < 2 {
            Err("invalid exFAT FAT capacity")
        } else {
            let fat_capacity = fat_length * block_size / 4 - 2;
            let requested = (available_blocks - heap) / sectors_per_cluster;
            let bounded = if requested < fat_capacity { requested } else { fat_capacity };
            let clusters = if bounded < u32::MAX - 2 { bounded } else { u32::MAX - 2 };
            if clusters < 16 {
                Err("expanded exFAT cluster count is too small")
            } else if heap + clusters * sectors_per_cluster > u64::MAX {
                Err("exFAT growth overflows")
            } else {
                Ok(ExfatGrowth {
                    old_blocks: le_u64(boot, 72),
                    new_blocks: (heap + clusters * sectors_per_cluster) as u64,
                    cluster_count: clusters as u32,
                })
            }
        }
    }
}

/// Plans the growth of the exFAT volume of the data partition, given its boot
/// sector.
pub fn plan_exfat_growth(boot: &[u8], block_size: u32, data: PartitionInfo, available_blocks: u64) -> (r: Result<ExfatGrowth, &'static str>)
    ensures
        r == exfat_growth(boot@, block_size, data, available_blocks),
{
    if boot.len() < 11 || !(boot[0] == 0xeb && boot[1] == 0x76 && boot[2] == 0x90) || !(boot[3] == 0x45 && boot[4] == 0x58
        && boot[5] == 0x46 && boot[6] == 0x41 && boot[7] == 0x54 && boot[8] == 0x20 && boot[9] == 0x20 && boot[10] == 0x20) {
        proof {
            if boot@.len() >= 11 {
                assert(boot@.subrange(0, 3)[0] == boot@[0] && boot@.subrange(0, 3)[1] == boot@[1] && boot@.subrange(0, 3)[2] == boot@[2]);
                assert(boot@.subrange(3, 11)[0] == boot@[3] && boot@.subrange(3, 11)[7] == boot@[10]);
                assert(boot@.subrange(3, 11)[1] == boot@[4] && boot@.subrange(3, 11)[2] == boot@[5]);
                assert(boot@.subrange(3, 11)[3] == boot@[6] && boot@.subrange(3, 11)[4] == boot@[7]);
                assert(boot@.subrange(3, 11)[5] == boot@[8] && boot@.subrange(3, 11)[6] == boot@[9]);
            }
        }
        return Err("NEXTDATA is not exFAT");
    }
    assert(boot@.subrange(0, 3) =~= seq![0xebu8, 0x76, 0x90]);
    assert(boot@.subrange(3, 11) =~= exfat_name());
    let offset = match read_le_u64(boot, 64) {
        Some(v) => v,
        None => return Err("missing exFAT partition offset"),
    };
    if offset != data.start_lba {
        return Err("exFAT partition offset does not match GPT");
    }
    if boot.len() <= 108 {
        return Err("missing exFAT sector shift");
    }
    let sector_shift = boot[108];
    if sector_shift >= 64 {
        return Err("invalid exFAT sector shift");
    }
    let bytes_per_sector = 1u64 << sector_shift;
    if bytes_per_sector != block_size as u64 {
        return Err("exFAT sector size does not match media");
    }
    if boot.len() <= 109 {
        return Err("missing exFAT cluster shift");
    }
    let cluster_shift = boot[109];
    if cluster_shift >= 64 {
        return Err("invalid exFAT cluster shift");
    }
    let sectors_per_cluster = 1u64 << cluster_shift;
    assert(sectors_per_cluster > 0) by (bit_vector)
        requires sectors_per_cluster == 1u64 << cluster_shift, cluster_shift < 64;
    let fat_length = match read_le_u32(boot, 84) {
        Some(v) => v as u64,
        None => return Err("missing exFAT FAT length"),
    };
    let heap = match read_le_u32(boot, 88) {
        Some(v) => v as u64,
        None => return Err("missing exFAT cluster heap offset"),
    };
    if fat_length == 0 || heap <= 24 || available_blocks <= heap {
        return Err("invalid growable exFAT geometry");
    }
    assert(fat_length * (block_size as u64) <= u64::MAX) by (nonlinear_arith)
        requires fat_length <= u32::MAX, block_size <= u32::MAX;
    let fat_entries = fat_length * (block_size as u64) / 4;
    if fat_entries < 2 {
        return Err("invalid exFAT FAT capacity");
    }
    let fat_capacity = fat_entries - 2;
    let requested = (available_blocks - heap) / sectors_per_cluster;
    let bounded = if requested < fat_capacity { requested } else { fat_capacity };
    let cluster_count = if bounded < (u32::MAX - 2) as u64 { bounded } else { (u32::MAX - 2) as u64 };
    if cluster_count < 16 {
        return Err("expanded exFAT cluster count is too small");
    }
    let span = match cluster_count.checked_mul(sectors_per_cluster) {
        Some(v) => v,
        None => return Err("exFAT growth overflows"),
    };
    let new_blocks = match heap.checked_add(span) {
        Some(v) => v,
        None => return Err("exFAT growth overflows"),
    };
    let old_blocks = match read_le_u64(boot, 72) {
        Some(v) => v,
        None => return Err("missing exFAT volume length"),
    };
    Ok(ExfatGrowth { old_blocks, new_blocks, cluster_count: cluster_count as u32 })
}

/// Records the grown volume length and cluster count in the boot sector.
pub fn update_exfat_boot_sector(boot: &mut [u8], growth: ExfatGrowth) -> (r: Result<(), &'static str>)
    ensures
        (final(boot)@, r) == then_u32(write_u64_step(old(boot)@, 72, growth.new_blocks), 92, growth.cluster_count),
{
    write_le_u64(boot, 72, growth.new_blocks)?;
    write_le_u32(boot, 92, growth.cluster_count)
}

/// Rotates right by one bit.
pub open spec fn rotate_right_1(c: u32) -> u32 {
    (c >> 1u32) | (c << 31u32)
}

/// The exFAT boot region checksum of `s`: every byte but the volume flags
/// (106, 107) and percent-in-use (112) fields, folded with a one-bit
/// rotation.
pub open spec fn exfat_boot_checksum(s: Seq<u8>) -> u32
    decreases s.len(),
{
    if s.len() == 0 {
        0
    } else {
        let c = exfat_boot_checksum(s.drop_last());
        let i = s.len() - 1;
        if i == 106 || i == 107 || i == 112 {
            c
        } else {
            rotate_right_1(c).wrapping_add(s.last() as u32)
        }
    }
}

/// The checksum sector: the checksum repeated little-endian in every whole
/// four-byte word, the rest zero.
pub open spec fn checksum_sector(checksum: u32, block_size: int) -> Seq<u8> {
    Seq::new(block_size as nat, |j: int| if j < block_size / 4 * 4 { le_u32_bytes(checksum)[j % 4] } else { 0u8 })
}

/// The boot region with its checksum sector (sector 11) rewritten.
pub open spec fn exfat_checksum_step(region: Seq<u8>, block_size: u32) -> (Seq<u8>, Result<(), &'static str>) {
    let sector = EXFAT_CHECKSUM_SECTOR * block_size;
    let end = sector + block_size;
    if sector > usize::MAX {
        (region, Err("exFAT checksum offset overflows"))
    } else if end > usize::MAX {
        (region, Err("exFAT checksum end overflows"))
    } else if region.len() < end {
        (region, Err("truncated exFAT boot region"))
    } else {
        (spliced(region, sector, checksum_sector(exfat_boot_checksum(region.subrange(0, sector)), block_size as int)), Ok(()))
    }
}

/// Recomputes the exFAT boot region checksum sector.
pub fn update_exfat_boot_checksum(boot_region: &mut [u8], block_size: u32) -> (r: Result<(), &'static str>)
    ensures
        (final(boot_region)@, r) == exfat_checksum_step(old(boot_region)@, block_size),
{
    let block_size = block_size as usize;
    let sector = match EXFAT_CHECKSUM_SECTOR.checked_mul(block_size) {
        Some(v) => v,
        None => return Err("exFAT checksum offset overflows"),
    };
    let end = match sector.checked_add(block_size) {
        Some(v) => v,
        None => return Err("exFAT checksum end overflows"),
    };
    if boot_region.len() < end {
        return Err("truncated exFAT boot region");
    }
    let ghost original = boot_region@;
    let mut j = sector;
    while j < end
        invariant
            sector <= j <= end <= boot_region@.len(),
            boot_region@.len() == original.len(),
            forall|m: int| 0 <= m < boot_region@.len() ==> #[trigger] boot_region@[m] == if sector <= m < j { 0u8 } else { original[m] },
        decreases end - j,
    {
        boot_region[j] = 0;
        j += 1;
    }
    let mut checksum: u32 = 0;
    let mut i: usize = 0;
    while i < sector
        invariant
            i <= sector <= end <= boot_region@.len(),
            boot_region@.len() == original.len(),
            forall|m: int| 0 <= m < sector ==> #[trigger] boot_region@[m] == original[m],
            checksum == exfat_boot_checksum(original.subrange(0, i as int)),
        decreases sector - i,
    {
        assert(original.subrange(0, i + 1).drop_last() =~= original.subrange(0, i as int));
        if !(i == 106 || i == 107 || i == 112) {
            checksum = ((checksum >> 1u32) | (checksum << 31u32)).wrapping_add(boot_region[i] as u32);
        }
        i += 1;
    }
    let words = block_size / 4;
    let mut k: usize = 0;
    while k < words
        invariant
            words == block_size / 4,
            end == sector + block_size,
            end <= boot_region@.len(),
            k <= words,
            boot_region@.len() == original.len(),
            forall|m: int| 0 <= m < boot_region@.len() ==> #[trigger] boot_region@[m] == if sector <= m < end {
                if m < sector + 4 * k { le_u32_bytes(checksum)[(m - sector) % 4] } else { 0u8 }
            } else {
                original[m]
            },
        decreases words - k,
    {
        let at = sector + 4 * k;
        crate::bytes::write_u32(boot_region, at, checksum);
        k += 1;
    }
    assert(boot_region@ =~= spliced(original, sector as int, checksum_sector(checksum, block_size as int)));
    Ok(())
}


// ---------------------------------------------------------------------------
// The decisions of one growth attempt
// ---------------------------------------------------------------------------

/// The block device as the growth sees it.
#[derive(Debug, Clone, Copy, PartialEq, Eq, Structural)]
pub struct MediaGeometry {
    pub block_size: u32,
    pub total_blocks: u64,
    pub last_lba: u64,
}

/// A writable whole disk with 512- or 4096-byte blocks is grown; anything
/// else is not release media (`Ok(None)`). A last block of `u64::MAX` gives a
/// block count that does not fit.
pub open spec fn media_geometry(
    present: bool,
    logical_partition: bool,
    read_only: bool,
    block_size: u32,
    last_block: u64,
) -> Result<Option<MediaGeometry>, &'static str> {
    if !present || logical_partition || read_only || (block_size != 512 && block_size != 4096) {
        Ok(None)
    } else if last_block == u64::MAX {
        Err("invalid media block count")
    } else {
        Ok(Some(MediaGeometry { block_size, total_blocks: (last_block + 1) as u64, last_lba: last_block }))
    }
}

/// Decides from the media's description whether it may be grown.
pub fn release_media_geometry(
    present: bool,
    logical_partition: bool,
    read_only: bool,
    block_size: u32,
    last_block: u64,
) -> (r: Result<Option<MediaGeometry>, &'static str>)
    ensures
        r == media_geometry(present, logical_partition, read_only, block_size, last_block),
{
    if !present || logical_partition || read_only {
        return Ok(None);
    }
    if block_size != 512 && block_size != 4096 {
        return Ok(None);
    }
    let total_blocks = match last_block.checked_add(1) {
        Some(v) => v,
        None => return Err("invalid media block count"),
    };
    let last_lba = match total_blocks.checked_sub(1) {
        Some(v) => v,
        None => return Err("empty media"),
    };
    Ok(Some(MediaGeometry { block_size, total_blocks, last_lba }))
}

/// The first block ends with `55 AA` and its first partition is the GPT
/// guard.
pub open spec fn release_mbr(mbr: Seq<u8>) -> bool {
    mbr.len() >= 512 && mbr[510] == 0x55 && mbr[511] == 0xaa && mbr[0x1c2] == 0xee
}

/// Whether the first block is the protective MBR of a release image.
pub fn is_release_mbr(mbr: &[u8]) -> (r: bool)
    ensures
        r == release_mbr(mbr@),
{
    mbr.len() >= 512 && mbr[510] == 0x55 && mbr[511] == 0xaa && mbr[0x1c2] == 0xee
}

/// Blocks the entry array fills, rounded up; `Ok(None)` for an empty array,
/// which no release image has.
pub open spec fn entry_array_sectors(gpt: GptInfo, block_size: u32) -> Result<Option<u64>, &'static str> {
    let bytes = gpt.entry_count * gpt.entry_size;
    if bytes > usize::MAX {
        Err("GPT entry array is too large")
    } else if block_size == 0 {
        Ok(None)
    } else {
        let padded = if bytes + block_size - 1 > usize::MAX { usize::MAX as int } else { bytes + block_size - 1 };
        let sectors = padded / (block_size as int);
        if sectors == 0 {
            Ok(None)
        } else {
            Ok(Some(sectors as u64))
        }
    }
}

/// How many blocks hold the GPT entry array.
pub fn gpt_entry_array_sectors(gpt: GptInfo, block_size: u32) -> (r: Result<Option<u64>, &'static str>)
    ensures
        r == entry_array_sectors(gpt, block_size),
{
    let bytes = match gpt.entry_count.checked_mul(gpt.entry_size) {
        Some(v) => v,
        None => return Err("GPT entry array is too large"),
    };
    let blocks = div_round_up(bytes, block_size as usize);
    if blocks == 0 {
        return Ok(None);
    }
    Ok(Some(blocks as u64))
}

/// The entries, as many bytes as the header says, have the CRC that the
/// header records at byte 88.
pub open spec fn entry_crc_matches(header: Seq<u8>, entries: Seq<u8>, gpt: GptInfo) -> Result<(), &'static str> {
    let len = gpt.entry_count * gpt.entry_size;
    if header.len() < 92 {
        Err("missing GPT entry CRC")
    } else if entries.len() < len {
        Err("truncated GPT entries")
    } else if crc32_of(entries.subrange(0, len)) != le_u32(header, 88) {
        Err("GPT entry CRC mismatch")
    } else {
        Ok(())
    }
}

/// Checks the entry array against the CRC in the header.
pub fn check_gpt_entry_crc(header: &[u8], entries: &[u8], gpt: GptInfo) -> (r: Result<(), &'static str>)
    requires
        gpt.entry_count * gpt.entry_size <= usize::MAX,
    ensures
        r == entry_crc_matches(header@, entries@, gpt),
{
    let entry_crc = match read_le_u32(header, 88) {
        Some(v) => v,
        None => return Err("missing GPT entry CRC"),
    };
    let entry_bytes = gpt.entry_count * gpt.entry_size;
    if entry_bytes > entries.len() {
        return Err("truncated GPT entries");
    }
    let crc = crc32(vstd::slice::slice_subrange(entries, 0, entry_bytes));
    if crc != entry_crc {
        return Err("GPT entry CRC mismatch");
    }
    Ok(())
}

/// Where the backup GPT goes on the whole media, and how far the data
/// partition may reach.
#[derive(Debug, Clone, Copy, PartialEq, Eq, Structural)]
pub struct GrowthWindow {
    pub backup_entries_lba: u64,
    pub new_last_usable_lba: u64,
    pub available_blocks: u64,
}

/// The backup entries end just before the last block, which holds the backup
/// header; the usable range ends just before them. `Ok(None)` when the data
/// partition would not reach past its start.
pub open spec fn growth_window(last_lba: u64, entry_array_sectors: u64, data: PartitionInfo) -> Result<Option<GrowthWindow>, &'static str> {
    if last_lba < entry_array_sectors {
        Err("media is too small for backup GPT")
    } else if last_lba - entry_array_sectors < 1 {
        Err("media is too small for usable GPT range")
    } else {
        let last_usable = last_lba - entry_array_sectors - 1;
        if last_usable <= data.start_lba {
            Ok(None)
        } else {
            Ok(
                Some(
                    GrowthWindow {
                        backup_entries_lba: (last_lba - entry_array_sectors) as u64,
                        new_last_usable_lba: last_usable as u64,
                        available_blocks: (last_usable - data.start_lba + 1) as u64,
                    },
                ),
            )
        }
    }
}

/// Lays out the grown disk's end.
pub fn plan_growth_window(last_lba: u64, entry_array_sectors: u64, data: PartitionInfo) -> (r: Result<
    Option<GrowthWindow>,
    &'static str,
>)
    ensures
        r == growth_window(last_lba, entry_array_sectors, data),
{
    let backup_entries_lba = match last_lba.checked_sub(entry_array_sectors) {
        Some(v) => v,
        None => return Err("media is too small for backup GPT"),
    };
    let new_last_usable_lba = match backup_entries_lba.checked_sub(1) {
        Some(v) => v,
        None => return Err("media is too small for usable GPT range"),
    };
    if new_last_usable_lba <= data.start_lba {
        return Ok(None);
    }
    Ok(
        Some(
            GrowthWindow {
                backup_entries_lba,
                new_last_usable_lba,
                available_blocks: new_last_usable_lba - data.start_lba + 1,
            },
        ),
    )
}

/// What has to be rewritten: the GPT (and protective MBR), the exFAT boot
/// region, and the data partition's new last block.
#[derive(Debug, Clone, Copy, PartialEq, Eq, Structural)]
pub struct GrowthWrites {
    pub needs_gpt: bool,
    pub needs_exfat: bool,
    pub new_data_end: u64,
}

/// The data partition ends where the grown volume ends, which must not be
/// before its current end. The GPT is rewritten when the backup header, the
/// usable range or the partition's end moves; exFAT when the volume grows.
/// `Ok(None)` when nothing moves: the media was already grown.
pub open spec fn growth_writes(gpt: GptInfo, data: PartitionInfo, last_lba: u64, window: GrowthWindow, growth: ExfatGrowth) -> Result<Option<GrowthWrites>, &'static str> {
    let end = data.start_lba + growth.new_blocks - 1;
    if data.start_lba + growth.new_blocks > u64::MAX || end < 0 {
        Err("expanded partition overflows")
    } else if end < data.end_lba {
        Err("existing NEXTDATA is larger than growable exFAT capacity")
    } else {
        let needs_gpt = gpt.old_backup_lba != last_lba || gpt.last_usable_lba != window.new_last_usable_lba
            || data.end_lba != end;
        let needs_exfat = growth.old_blocks != growth.new_blocks;
        if !needs_gpt && !needs_exfat {
            Ok(None)
        } else {
            Ok(Some(GrowthWrites { needs_gpt, needs_exfat, new_data_end: end as u64 }))
        }
    }
}

/// Decides what the growth has to rewrite.
pub fn plan_growth_writes(gpt: GptInfo, data: PartitionInfo, last_lba: u64, window: GrowthWindow, growth: ExfatGrowth) -> (r: Result<
    Option<GrowthWrites>,
    &'static str,
>)
    ensures
        r == growth_writes(gpt, data, last_lba, window, growth),
{
    let new_data_end = match data.start_lba.checked_add(growth.new_blocks) {
        Some(v) => match v.checked_sub(1) {
            Some(e) => e,
            None => return Err("expanded partition overflows"),
        },
        None => return Err("expanded partition overflows"),
    };
    if new_data_end < data.end_lba {
        return Err("existing NEXTDATA is larger than growable exFAT capacity");
    }
    let needs_gpt = gpt.old_backup_lba != last_lba || gpt.last_usable_lba != window.new_last_usable_lba || data.end_lba
        != new_data_end;
    let needs_exfat = growth.old_blocks != growth.new_blocks;
    if !needs_gpt && !needs_exfat {
        return Ok(None);
    }
    Ok(Some(GrowthWrites { needs_gpt, needs_exfat, new_data_end }))
}

/// The grown exFAT volume fits the blocks it was planned for.
pub proof fn lemma_exfat_growth_fits(boot: Seq<u8>, block_size: u32, data: PartitionInfo, available_blocks: u64)
    requires
        exfat_growth(boot, block_size, data, available_blocks) is Ok,
    ensures
        exfat_growth(boot, block_size, data, available_blocks)->Ok_0.new_blocks <= available_blocks,
        exfat_growth(boot, block_size, data, available_blocks)->Ok_0.cluster_count >= 16,
{
    let sectors_per_cluster = (1u64 << boot[109]) as int;
    let heap = le_u32(boot, 88) as int;
    let fat_length = le_u32(boot, 84) as int;
    let fat_capacity = fat_length * block_size / 4 - 2;
    let requested = (available_blocks - heap) / sectors_per_cluster;
    let bounded = if requested < fat_capacity { requested } else { fat_capacity };
    let clusters = if bounded < u32::MAX - 2 { bounded } else { u32::MAX - 2 };
    assert(sectors_per_cluster > 0) by {
        let shift = boot[109];
        assert(shift < 64);
        assert((1u64 << shift) > 0) by (bit_vector)
            requires
                shift < 64,
        ;
    }
    assert(clusters <= requested);
    assert(clusters * sectors_per_cluster <= available_blocks - heap) by (nonlinear_arith)
        requires
            0 <= clusters <= requested,
            requested == (available_blocks - heap) / sectors_per_cluster,
            sectors_per_cluster > 0,
            available_blocks - heap > 0,
    ;
}

/// The data partition of a grown disk ends no earlier than before, within
/// the usable range, and before the backup entry array, which ends before
/// the last block (the backup header).
pub proof fn lemma_grown_partition_fits_usable_range(
    gpt: GptInfo,
    boot: Seq<u8>,
    block_size: u32,
    data: PartitionInfo,
    last_lba: u64,
    entry_array_sectors: u64,
)
    requires
        entry_array_sectors >= 1,
        growth_window(last_lba, entry_array_sectors, data) matches Ok(Some(w)) && exfat_growth(
            boot,
            block_size,
            data,
            w.available_blocks,
        ) matches Ok(g) && growth_writes(gpt, data, last_lba, w, g) matches Ok(Some(_)),
    ensures
        ({
            let w = growth_window(last_lba, entry_array_sectors, data)->Ok_0->Some_0;
            let g = exfat_growth(boot, block_size, data, w.available_blocks)->Ok_0;
            let writes = growth_writes(gpt, data, last_lba, w, g)->Ok_0->Some_0;
            &&& data.end_lba <= writes.new_data_end
            &&& writes.new_data_end <= w.new_last_usable_lba
            &&& w.new_last_usable_lba < w.backup_entries_lba
            &&& w.backup_entries_lba + entry_array_sectors - 1 < last_lba
        }),
{
    let w = growth_window(last_lba, entry_array_sectors, data)->Ok_0->Some_0;
    lemma_exfat_growth_fits(boot, block_size, data, w.available_blocks);
}

/// The protective MBR's size field after growth: the blocks after the MBR,
/// capped at what 32 bits hold.
pub open spec fn protective_mbr_size(total_blocks: u64) -> u32 {
    if total_blocks - 1 > u32::MAX { u32::MAX } else { (total_blocks - 1) as u32 }
}

/// Moves the data partition's end in the entry array, computes the array's
/// new CRC and sets the protective MBR's size; gives the CRC.
pub fn prepare_gpt_growth(
    mbr: &mut [u8],
    entries: &mut [u8],
    gpt: GptInfo,
    data_index: usize,
    new_data_end: u64,
    total_blocks: u64,
) -> (r: Result<u32, &'static str>)
    requires
        total_blocks >= 1,
        gpt.entry_count * gpt.entry_size <= usize::MAX,
        data_index * gpt.entry_size + GPT_ENTRY_END_LBA_OFFSET + 8 <= usize::MAX,
    ensures
        ({
            let e = write_u64_step(old(entries)@, data_index * gpt.entry_size + GPT_ENTRY_END_LBA_OFFSET, new_data_end);
            let len = gpt.entry_count * gpt.entry_size;
            let m = write_u32_step(old(mbr)@, 0x1ca, protective_mbr_size(total_blocks));
            &&& final(entries)@ == e.0
            &&& if e.1 is Err {
                r == Err::<u32, &'static str>(e.1->Err_0) && final(mbr)@ == old(mbr)@
            } else if e.0.len() < len {
                r == Err::<u32, &'static str>("truncated GPT entries") && final(mbr)@ == old(mbr)@
            } else {
                &&& final(mbr)@ == m.0
                &&& m.1 is Err ==> r == Err::<u32, &'static str>(m.1->Err_0)
                &&& m.1 is Ok ==> r == Ok::<u32, &'static str>(crc32_of(e.0.subrange(0, len)))
            }
        }),
{
    update_gpt_entries(entries, gpt.entry_size, data_index, new_data_end)?;
    let entry_bytes = gpt.entry_count * gpt.entry_size;
    if entry_bytes > entries.len() {
        return Err("truncated GPT entries");
    }
    let crc = crc32(vstd::slice::slice_subrange(entries, 0, entry_bytes));
    let size = if total_blocks - 1 > u32::MAX as u64 { u32::MAX } else { (total_blocks - 1) as u32 };
    write_le_u32(mbr, 0x1be + 12, size)?;
    Ok(crc)
}

} // verus!
