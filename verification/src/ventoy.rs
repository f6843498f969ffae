//! Ventoy-compatible runtime parameter builders.
//!
//! Ventoy publishes a 512-byte `VentoyOsParam` UEFI variable and, for normal
//! disk-backed images, points it at a runtime `ventoy_image_location` table.

use crate::bytes::{
    byte_sum, lemma_byte_sum_update, le_u16_bytes, le_u32_bytes, le_u64_bytes, push_u32, push_u64,
    spliced, write_bytes, write_u16, write_u32, write_u64,
};
use vstd::prelude::*;
use vstd::string::StringSliceAdditionalSpecFns;

verus! {

pub const VENTOY_OS_PARAM_SIZE: usize = 512;
pub const VENTOY_IMAGE_PATH_SIZE: usize = 384;
pub const VENTOY_IMAGE_LOCATION_HEADER_SIZE: usize = 28;
pub const VENTOY_IMAGE_LOCATION_REGION_SIZE: usize = 16;
pub const VENTOY_PART_TYPE_EXFAT: u16 = 0;
pub const VENTOY_PART_TYPE_NTFS: u16 = 1;
pub const VENTOY_PART_TYPE_FAT: u16 = 5;
pub const VENTOY_PART_TYPE_OTHER: u16 = 6;

pub const OS_PARAM_CHECKSUM_OFFSET: usize = 16;
pub const OS_PARAM_DISK_GUID_OFFSET: usize = 17;
pub const OS_PARAM_DISK_SIZE_OFFSET: usize = 33;
pub const OS_PARAM_PART_ID_OFFSET: usize = 41;
pub const OS_PARAM_PART_TYPE_OFFSET: usize = 43;
pub const OS_PARAM_IMAGE_PATH_OFFSET: usize = 45;
pub const OS_PARAM_IMAGE_SIZE_OFFSET: usize = 429;
pub const OS_PARAM_IMAGE_LOCATION_ADDR_OFFSET: usize = 437;
pub const OS_PARAM_IMAGE_LOCATION_LEN_OFFSET: usize = 445;
pub const OS_PARAM_RESERVED_OFFSET: usize = 449;
pub const OS_PARAM_DISK_SIGNATURE_OFFSET: usize = 481;

/// The Ventoy signature GUID (`"  www.ventoy.net"`).
pub open spec fn ventoy_guid() -> Seq<u8> {
    seq![0x20u8, 0x20, 0x77, 0x77, 0x77, 0x2e, 0x76, 0x65, 0x6e, 0x74, 0x6f, 0x79, 0x2e, 0x6e, 0x65, 0x74]
}

/// The Ventoy signature GUID bytes.
pub fn ventoy_guid_bytes() -> (r: [u8; 16])
    ensures
        r@ == ventoy_guid(),
{
    let r: [u8; 16] = [0x20, 0x20, 0x77, 0x77, 0x77, 0x2e, 0x76, 0x65, 0x6e, 0x74, 0x6f, 0x79, 0x2e, 0x6e, 0x65, 0x74];
    assert(r@ =~= ventoy_guid());
    r
}

#[derive(Debug, Clone, Copy, PartialEq, Eq, Structural)]
pub enum VentoyParamError {
    PathTooLong,
    InvalidSectorSize,
    UnalignedExtent,
    ValueOutOfRange,
    OutputTooLarge,
    OutputReserveFailed,
}

/// Values published in the `VentoyOsParam` variable.
#[derive(Debug, Clone, Copy, PartialEq, Eq)]
pub struct VentoyOsParamInput<'a> {
    pub disk_guid: [u8; 16],
    pub disk_size: u64,
    pub disk_part_id: u16,
    pub disk_part_type: u16,
    pub image_path: &'a str,
    pub image_size: u64,
    pub image_location_addr: u64,
    pub image_location_len: u32,
    pub reserved: [u64; 4],
    pub disk_signature: [u8; 4],
}

/// A run of image blocks stored contiguously on the disk.
#[derive(Debug, Clone, Copy, PartialEq, Eq, Structural)]
pub struct VentoyExtent {
    pub virtual_block_start: u64,
    pub physical_lba: u64,
    pub block_count: u64,
}

/// One entry of the `ventoy_image_location` table.
#[derive(Debug, Clone, Copy, PartialEq, Eq, Structural)]
pub struct VentoyImageRegion {
    pub image_sector_count: u32,
    pub image_start_sector: u32,
    pub disk_start_sector: u64,
}

/// The reserved words written from `OS_PARAM_RESERVED_OFFSET` on, the first
/// `n` of them.
pub open spec fn reserved_spliced(d: Seq<u8>, reserved: Seq<u64>, n: int) -> Seq<u8>
    decreases n,
{
    if n <= 0 {
        d
    } else {
        spliced(reserved_spliced(d, reserved, n - 1), OS_PARAM_RESERVED_OFFSET + (n - 1) * 8, le_u64_bytes(reserved[n - 1]))
    }
}

/// The parameter block with its checksum byte still zero.
pub open spec fn os_param_unsummed(input: VentoyOsParamInput) -> Seq<u8> {
    let d = Seq::new(VENTOY_OS_PARAM_SIZE as nat, |i: int| 0u8);
    let d = spliced(d, 0, ventoy_guid());
    let d = spliced(d, OS_PARAM_DISK_GUID_OFFSET as int, input.disk_guid@);
    let d = spliced(d, OS_PARAM_DISK_SIZE_OFFSET as int, le_u64_bytes(input.disk_size));
    let d = spliced(d, OS_PARAM_PART_ID_OFFSET as int, le_u16_bytes(input.disk_part_id));
    let d = spliced(d, OS_PARAM_PART_TYPE_OFFSET as int, le_u16_bytes(input.disk_part_type));
    let d = spliced(d, OS_PARAM_IMAGE_PATH_OFFSET as int, input.image_path.spec_bytes());
    let d = spliced(d, OS_PARAM_IMAGE_SIZE_OFFSET as int, le_u64_bytes(input.image_size));
    let d = spliced(d, OS_PARAM_IMAGE_LOCATION_ADDR_OFFSET as int, le_u64_bytes(input.image_location_addr));
    let d = spliced(d, OS_PARAM_IMAGE_LOCATION_LEN_OFFSET as int, le_u32_bytes(input.image_location_len));
    let d = reserved_spliced(d, input.reserved@, 4);
    spliced(d, OS_PARAM_DISK_SIGNATURE_OFFSET as int, input.disk_signature@)
}

/// Checksum byte that makes the bytes of `d` sum to zero modulo 256.
pub open spec fn balancing_byte(d: Seq<u8>) -> u8 {
    ((256 - byte_sum(d) % 256) % 256) as u8
}

/// The complete parameter block.
pub open spec fn os_param_bytes(input: VentoyOsParamInput) -> Seq<u8> {
    let d = os_param_unsummed(input);
    d.update(OS_PARAM_CHECKSUM_OFFSET as int, balancing_byte(d))
}

/// Builds the 512-byte `VentoyOsParam` block; the image path must fit in
/// its 384-byte field.  The bytes of the block sum to zero modulo 256.
pub fn build_ventoy_os_param(input: &VentoyOsParamInput) -> (r: Result<[u8; 512], VentoyParamError>)
    ensures
        match r {
            Ok(data) => input.image_path.spec_bytes().len() <= VENTOY_IMAGE_PATH_SIZE && data@ == os_param_bytes(*input)
                && byte_sum(data@) % 256 == 0,
            Err(e) => input.image_path.spec_bytes().len() > VENTOY_IMAGE_PATH_SIZE && e == VentoyParamError::PathTooLong,
        },
{
    let path = input.image_path.as_bytes();
    if path.len() > VENTOY_IMAGE_PATH_SIZE {
        return Err(VentoyParamError::PathTooLong);
    }
    let mut data = [0u8; 512];
    assert(data@ =~= Seq::new(VENTOY_OS_PARAM_SIZE as nat, |i: int| 0u8));
    let guid = ventoy_guid_bytes();
    write_bytes(&mut data, 0, &guid);
    write_bytes(&mut data, OS_PARAM_DISK_GUID_OFFSET, &input.disk_guid);
    write_u64(&mut data, OS_PARAM_DISK_SIZE_OFFSET, input.disk_size);
    write_u16(&mut data, OS_PARAM_PART_ID_OFFSET, input.disk_part_id);
    write_u16(&mut data, OS_PARAM_PART_TYPE_OFFSET, input.disk_part_type);
    write_bytes(&mut data, OS_PARAM_IMAGE_PATH_OFFSET, path);
    write_u64(&mut data, OS_PARAM_IMAGE_SIZE_OFFSET, input.image_size);
    write_u64(&mut data, OS_PARAM_IMAGE_LOCATION_ADDR_OFFSET, input.image_location_addr);
    write_u32(&mut data, OS_PARAM_IMAGE_LOCATION_LEN_OFFSET, input.image_location_len);
    let ghost before_reserved = data@;
    let mut index: usize = 0;
    while index < 4
        invariant
            index <= 4,
            data@ == reserved_spliced(before_reserved, input.reserved@, index as int),
            before_reserved.len() == 512,
        decreases 4 - index,
    {
        proof {
            lemma_reserved_spliced_len(before_reserved, input.reserved@, index as int);
        }
        write_u64(&mut data, OS_PARAM_RESERVED_OFFSET + index * 8, input.reserved[index]);
        index += 1;
    }
    write_bytes(&mut data, OS_PARAM_DISK_SIGNATURE_OFFSET, &input.disk_signature);
    let ghost unsummed = data@;
    assert(unsummed == os_param_unsummed(*input));
    proof {
        lemma_checksum_byte_clear(*input);
    }
    data[OS_PARAM_CHECKSUM_OFFSET] = 0;
    assert(data@ =~= unsummed);
    let mut sum: u8 = 0;
    let mut i: usize = 0;
    while i < VENTOY_OS_PARAM_SIZE
        invariant
            i <= 512,
            data@ == unsummed,
            unsummed.len() == 512,
            sum as nat == byte_sum(unsummed.take(i as int)) % 256,
        decreases 512 - i,
    {
        assert(unsummed.take(i + 1).drop_last() =~= unsummed.take(i as int));
        sum = sum.wrapping_add(data[i]);
        i += 1;
    }
    assert(unsummed.take(512) =~= unsummed);
    data[OS_PARAM_CHECKSUM_OFFSET] = 0u8.wrapping_sub(sum);
    proof {
        lemma_byte_sum_update(unsummed, OS_PARAM_CHECKSUM_OFFSET as int, balancing_byte(unsummed));
    }
    assert(data@ =~= os_param_bytes(*input));
    Ok(data)
}

proof fn lemma_reserved_spliced_len(d: Seq<u8>, reserved: Seq<u64>, n: int)
    ensures
        reserved_spliced(d, reserved, n).len() == d.len(),
    decreases n,
{
    if n > 0 {
        lemma_reserved_spliced_len(d, reserved, n - 1);
    }
}

proof fn lemma_reserved_spliced_keeps(d: Seq<u8>, reserved: Seq<u64>, n: int, j: int)
    requires
        0 <= j < OS_PARAM_RESERVED_OFFSET,
        0 <= j < d.len(),
    ensures
        reserved_spliced(d, reserved, n)[j] == d[j],
    decreases n,
{
    if n > 0 {
        lemma_reserved_spliced_keeps(d, reserved, n - 1, j);
        lemma_reserved_spliced_len(d, reserved, n - 1);
    }
}

/// No field overlaps the checksum byte.
proof fn lemma_checksum_byte_clear(input: VentoyOsParamInput)
    requires
        input.image_path.spec_bytes().len() <= VENTOY_IMAGE_PATH_SIZE,
    ensures
        os_param_unsummed(input)[OS_PARAM_CHECKSUM_OFFSET as int] == 0,
        os_param_unsummed(input).len() == 512,
{
    let d0 = Seq::new(VENTOY_OS_PARAM_SIZE as nat, |i: int| 0u8);
    let d1 = spliced(d0, 0, ventoy_guid());
    let d2 = spliced(d1, OS_PARAM_DISK_GUID_OFFSET as int, input.disk_guid@);
    let d3 = spliced(d2, OS_PARAM_DISK_SIZE_OFFSET as int, le_u64_bytes(input.disk_size));
    let d4 = spliced(d3, OS_PARAM_PART_ID_OFFSET as int, le_u16_bytes(input.disk_part_id));
    let d5 = spliced(d4, OS_PARAM_PART_TYPE_OFFSET as int, le_u16_bytes(input.disk_part_type));
    let d6 = spliced(d5, OS_PARAM_IMAGE_PATH_OFFSET as int, input.image_path.spec_bytes());
    let d7 = spliced(d6, OS_PARAM_IMAGE_SIZE_OFFSET as int, le_u64_bytes(input.image_size));
    let d8 = spliced(d7, OS_PARAM_IMAGE_LOCATION_ADDR_OFFSET as int, le_u64_bytes(input.image_location_addr));
    let d9 = spliced(d8, OS_PARAM_IMAGE_LOCATION_LEN_OFFSET as int, le_u32_bytes(input.image_location_len));
    assert(d9[16] == 0);
    lemma_reserved_spliced_keeps(d9, input.reserved@, 4, 16);
    lemma_reserved_spliced_len(d9, input.reserved@, 4);
}

/// The image regions of `e`: its byte range in `source_block_size` units,
/// re-expressed in `image_sector_size` sectors.
pub open spec fn extent_region(e: VentoyExtent, source_block_size: u32, image_sector_size: u32) -> Result<VentoyImageRegion, VentoyParamError> {
    let start_bytes = e.virtual_block_start * source_block_size;
    let bytes = e.block_count * source_block_size;
    if start_bytes > u64::MAX || bytes > u64::MAX {
        Err(VentoyParamError::ValueOutOfRange)
    } else if start_bytes % (image_sector_size as int) != 0 || bytes % (image_sector_size as int) != 0 {
        Err(VentoyParamError::UnalignedExtent)
    } else if bytes / (image_sector_size as int) > u32::MAX || start_bytes / (image_sector_size as int) > u32::MAX {
        Err(VentoyParamError::ValueOutOfRange)
    } else {
        Ok(VentoyImageRegion {
            image_sector_count: (bytes / (image_sector_size as int)) as u32,
            image_start_sector: (start_bytes / (image_sector_size as int)) as u32,
            disk_start_sector: e.physical_lba,
        })
    }
}

/// The regions of all extents, or the error of the first one that fails.
pub open spec fn extents_regions(extents: Seq<VentoyExtent>, source_block_size: u32, image_sector_size: u32) -> Result<Seq<VentoyImageRegion>, VentoyParamError>
    decreases extents.len(),
{
    if extents.len() == 0 {
        Ok(Seq::empty())
    } else {
        match extents_regions(extents.drop_last(), source_block_size, image_sector_size) {
            Err(e) => Err(e),
            Ok(prefix) => match extent_region(extents.last(), source_block_size, image_sector_size) {
                Err(e) => Err(e),
                Ok(region) => Ok(prefix.push(region)),
            },
        }
    }
}

/// Turns file extents (in source blocks) into image regions (in image
/// sectors).  When room for the regions cannot be reserved, gives
/// `OutputReserveFailed`; otherwise the regions are built by
/// `fill_ventoy_image_regions`.
pub fn build_ventoy_image_regions(extents: &[VentoyExtent], source_block_size: u32, image_sector_size: u32) -> (r: Result<Vec<VentoyImageRegion>, VentoyParamError>)
    ensures
        source_block_size == 0 || image_sector_size == 0 ==> r == Err::<Vec<VentoyImageRegion>, VentoyParamError>(VentoyParamError::InvalidSectorSize),
        source_block_size != 0 && image_sector_size != 0 ==> match r {
            Ok(regions) => extents_regions(extents@, source_block_size, image_sector_size) == Ok::<Seq<VentoyImageRegion>, VentoyParamError>(regions@),
            Err(e) => e == VentoyParamError::OutputReserveFailed
                || extents_regions(extents@, source_block_size, image_sector_size) == Err::<Seq<VentoyImageRegion>, VentoyParamError>(e),
        },
{
    if source_block_size == 0 || image_sector_size == 0 {
        return Err(VentoyParamError::InvalidSectorSize);
    }
    let mut regions: Vec<VentoyImageRegion> = Vec::new();
    if regions.try_reserve(extents.len()).is_err() {
        return Err(VentoyParamError::OutputReserveFailed);
    }
    fill_ventoy_image_regions(regions, extents, source_block_size, image_sector_size)
}

/// Builds the image regions of `extents` in `regions`, an empty list with
/// room reserved for them: the regions, or the error of the first extent
/// that fails.
pub fn fill_ventoy_image_regions(
    regions: Vec<VentoyImageRegion>,
    extents: &[VentoyExtent],
    source_block_size: u32,
    image_sector_size: u32,
) -> (r: Result<Vec<VentoyImageRegion>, VentoyParamError>)
    requires
        regions@.len() == 0,
        source_block_size != 0,
        image_sector_size != 0,
    ensures
        match r {
            Ok(v) => extents_regions(extents@, source_block_size, image_sector_size) == Ok::<Seq<VentoyImageRegion>, VentoyParamError>(v@),
            Err(e) => extents_regions(extents@, source_block_size, image_sector_size) == Err::<Seq<VentoyImageRegion>, VentoyParamError>(e),
        },
{
    let mut regions = regions;
    let sector = image_sector_size as u64;
    let block = source_block_size as u64;
    assert(extents@.take(0) =~= Seq::<VentoyExtent>::empty());
    assert(regions@ =~= Seq::<VentoyImageRegion>::empty());
    let mut i: usize = 0;
    while i < extents.len()
        invariant
            i <= extents@.len(),
            sector == image_sector_size as u64,
            block == source_block_size as u64,
            sector != 0,
            block != 0,
            extents_regions(extents@.take(i as int), source_block_size, image_sector_size) == Ok::<Seq<VentoyImageRegion>, VentoyParamError>(regions@),
        decreases extents@.len() - i,
    {
        assert(extents@.take(i + 1).drop_last() =~= extents@.take(i as int));
        let extent = extents[i];
        let start_bytes = match extent.virtual_block_start.checked_mul(block) {
            Some(v) => v,
            None => {
                proof {
                    lemma_regions_prefix_error(extents@, i as int, source_block_size, image_sector_size);
                }
                return Err(VentoyParamError::ValueOutOfRange);
            },
        };
        let bytes = match extent.block_count.checked_mul(block) {
            Some(v) => v,
            None => {
                proof {
                    lemma_regions_prefix_error(extents@, i as int, source_block_size, image_sector_size);
                }
                return Err(VentoyParamError::ValueOutOfRange);
            },
        };
        if start_bytes % sector != 0 || bytes % sector != 0 {
            proof {
                lemma_regions_prefix_error(extents@, i as int, source_block_size, image_sector_size);
            }
            return Err(VentoyParamError::UnalignedExtent);
        }
        let start_sector = start_bytes / sector;
        let sector_count = bytes / sector;
        if sector_count > u32::MAX as u64 || start_sector > u32::MAX as u64 {
            proof {
                lemma_regions_prefix_error(extents@, i as int, source_block_size, image_sector_size);
            }
            return Err(VentoyParamError::ValueOutOfRange);
        }
        regions.push(VentoyImageRegion {
            image_sector_count: sector_count as u32,
            image_start_sector: start_sector as u32,
            disk_start_sector: extent.physical_lba,
        });
        i += 1;
    }
    assert(extents@.take(extents@.len() as int) =~= extents@);
    Ok(regions)
}

/// An extent that fails makes the whole list fail with its error, once the
/// extents before it all succeeded.
proof fn lemma_regions_prefix_error(extents: Seq<VentoyExtent>, i: int, source_block_size: u32, image_sector_size: u32)
    requires
        0 <= i < extents.len(),
        extents_regions(extents.take(i), source_block_size, image_sector_size) is Ok,
        extent_region(extents[i], source_block_size, image_sector_size) is Err,
    ensures
        extents_regions(extents, source_block_size, image_sector_size) == Err::<Seq<VentoyImageRegion>, VentoyParamError>(
            extent_region(extents[i], source_block_size, image_sector_size)->Err_0),
    decreases extents.len(),
{
    if i == extents.len() - 1 {
        assert(extents.drop_last() =~= extents.take(i));
    } else {
        assert(extents.drop_last().take(i) =~= extents.take(i));
        lemma_regions_prefix_error(extents.drop_last(), i, source_block_size, image_sector_size);
    }
}

/// The region records of the location table.
pub open spec fn region_records(regions: Seq<VentoyImageRegion>) -> Seq<u8>
    decreases regions.len(),
{
    if regions.len() == 0 {
        Seq::empty()
    } else {
        let r = regions.last();
        region_records(regions.drop_last()) + le_u32_bytes(r.image_sector_count) + le_u32_bytes(r.image_start_sector)
            + le_u64_bytes(r.disk_start_sector)
    }
}

/// The `ventoy_image_location` table: the GUID, both sector sizes, the
/// region count, then each region.
pub open spec fn image_location_bytes(image_sector_size: u32, disk_sector_size: u32, regions: Seq<VentoyImageRegion>) -> Seq<u8> {
    ventoy_guid() + le_u32_bytes(image_sector_size) + le_u32_bytes(disk_sector_size) + le_u32_bytes(regions.len() as u32)
        + region_records(regions)
}

/// Builds the `ventoy_image_location` table.  When room for it cannot be
/// reserved, gives `OutputReserveFailed`; otherwise the table is written by
/// `fill_ventoy_image_location`.
pub fn build_ventoy_image_location(image_sector_size: u32, disk_sector_size: u32, regions: &[VentoyImageRegion]) -> (r: Result<Vec<u8>, VentoyParamError>)
    ensures
        image_sector_size == 0 || disk_sector_size == 0 ==> r == Err::<Vec<u8>, VentoyParamError>(VentoyParamError::InvalidSectorSize),
        image_sector_size != 0 && disk_sector_size != 0 ==> match r {
            Ok(data) => regions@.len() <= u32::MAX && data@ == image_location_bytes(image_sector_size, disk_sector_size, regions@)
                && data@.len() == VENTOY_IMAGE_LOCATION_HEADER_SIZE + VENTOY_IMAGE_LOCATION_REGION_SIZE * regions@.len(),
            Err(e) => if VENTOY_IMAGE_LOCATION_HEADER_SIZE + VENTOY_IMAGE_LOCATION_REGION_SIZE * regions@.len() > usize::MAX {
                e == VentoyParamError::OutputTooLarge
            } else {
                e == VentoyParamError::OutputReserveFailed || (regions@.len() > u32::MAX && e == VentoyParamError::ValueOutOfRange)
            },
        },
{
    if image_sector_size == 0 || disk_sector_size == 0 {
        return Err(VentoyParamError::InvalidSectorSize);
    }
    let records = match regions.len().checked_mul(VENTOY_IMAGE_LOCATION_REGION_SIZE) {
        Some(v) => v,
        None => return Err(VentoyParamError::OutputTooLarge),
    };
    let total_size = match VENTOY_IMAGE_LOCATION_HEADER_SIZE.checked_add(records) {
        Some(v) => v,
        None => return Err(VentoyParamError::OutputTooLarge),
    };
    let mut data: Vec<u8> = Vec::new();
    if data.try_reserve(total_size).is_err() {
        return Err(VentoyParamError::OutputReserveFailed);
    }
    fill_ventoy_image_location(data, image_sector_size, disk_sector_size, regions)
}

/// Writes the `ventoy_image_location` table into `data`, an empty buffer
/// with room reserved for it; more regions than a 32-bit count holds give
/// `ValueOutOfRange`.
pub fn fill_ventoy_image_location(data: Vec<u8>, image_sector_size: u32, disk_sector_size: u32, regions: &[VentoyImageRegion]) -> (r:
    Result<Vec<u8>, VentoyParamError>)
    requires
        data@.len() == 0,
    ensures
        match r {
            Ok(d) => regions@.len() <= u32::MAX && d@ == image_location_bytes(image_sector_size, disk_sector_size, regions@)
                && d@.len() == VENTOY_IMAGE_LOCATION_HEADER_SIZE + VENTOY_IMAGE_LOCATION_REGION_SIZE * regions@.len(),
            Err(e) => regions@.len() > u32::MAX && e == VentoyParamError::ValueOutOfRange,
        },
{
    let mut data = data;
    let guid = ventoy_guid_bytes();
    let mut g: usize = 0;
    while g < 16
        invariant
            g <= 16,
            guid@ == ventoy_guid(),
            data@ == ventoy_guid().take(g as int),
        decreases 16 - g,
    {
        assert(ventoy_guid().take(g + 1) =~= ventoy_guid().take(g as int).push(guid@[g as int]));
        data.push(guid[g]);
        g += 1;
    }
    assert(ventoy_guid().take(16) =~= ventoy_guid());
    push_u32(&mut data, image_sector_size);
    push_u32(&mut data, disk_sector_size);
    if regions.len() > u32::MAX as usize {
        return Err(VentoyParamError::ValueOutOfRange);
    }
    push_u32(&mut data, regions.len() as u32);
    let ghost header = data@;
    let mut i: usize = 0;
    while i < regions.len()
        invariant
            i <= regions@.len(),
            header.len() == 28,
            data@ == header + region_records(regions@.take(i as int)),
            data@.len() == 28 + 16 * i,
        decreases regions@.len() - i,
    {
        assert(regions@.take(i + 1).drop_last() =~= regions@.take(i as int));
        let region = regions[i];
        push_u32(&mut data, region.image_sector_count);
        push_u32(&mut data, region.image_start_sector);
        push_u64(&mut data, region.disk_start_sector);
        assert(data@ =~= header + region_records(regions@.take(i + 1)));
        i += 1;
    }
    assert(regions@.take(regions@.len() as int) =~= regions@);
    Ok(data)
}

} // verus!
