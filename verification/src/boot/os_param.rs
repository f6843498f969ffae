//! The OS parameter records published to a booted system: NextBoot's own
//! `NextBootOsParam` layout, and the source extents and image regions that
//! Ventoy's record is built from.

use super::BootError;
use super::util::{aligned_up, align_up, div_round_up, div_rounded_up, os_code, os_type_code};
use crate::bytes::{le_u16_bytes, le_u32_bytes, le_u64_bytes, push_u16, push_u32, push_u64};
use crate::scanner::model::{IsoExtent, OsType};
use crate::ventoy::{build_ventoy_image_regions, extents_regions, VentoyExtent, VentoyImageRegion, VentoyParamError};
use vstd::prelude::*;
use vstd::string::StringSliceAdditionalSpecFns;

verus! {

pub const NEXTBOOT_OS_PARAM_VERSION: u16 = 1;
pub const NEXTBOOT_OS_PARAM_HEADER_SIZE: usize = 80;
pub const NEXTBOOT_OS_PARAM_EXTENT_RECORD_SIZE: usize = 24;
pub const NEXTBOOT_OS_PARAM_FLAG_SYNTHETIC_EXTENT: u16 = 0x0001;
pub const NEXTBOOT_OS_PARAM_FLAG_EL_TORITO: u16 = 0x0002;

/// The status a Ventoy parameter error is reported with.
pub open spec fn ventoy_error_kind(err: VentoyParamError) -> BootError {
    match err {
        VentoyParamError::PathTooLong | VentoyParamError::InvalidSectorSize => BootError::InvalidParameter,
        VentoyParamError::UnalignedExtent => BootError::Unsupported,
        _ => BootError::OutOfResources,
    }
}

/// Maps a Ventoy parameter error to its status.
pub fn ventoy_error_status(err: VentoyParamError) -> (r: BootError)
    ensures
        r == ventoy_error_kind(err),
{
    match err {
        VentoyParamError::PathTooLong | VentoyParamError::InvalidSectorSize => BootError::InvalidParameter,
        VentoyParamError::UnalignedExtent => BootError::Unsupported,
        VentoyParamError::ValueOutOfRange | VentoyParamError::OutputTooLarge | VentoyParamError::OutputReserveFailed => {
            BootError::OutOfResources
        },
    }
}

/// How the image is presented to the booted system.
#[derive(Debug, Clone, Copy, PartialEq, Eq, Structural)]
pub enum VirtualDeviceType {
    DvdRom,
    HardDisk,
    UsbMassStorage,
}

/// The number recorded for a device type.
pub open spec fn device_code(device_type: VirtualDeviceType) -> u32 {
    match device_type {
        VirtualDeviceType::DvdRom => 1,
        VirtualDeviceType::HardDisk => 2,
        VirtualDeviceType::UsbMassStorage => 3,
    }
}

/// The number recorded for a device type.
pub fn virtual_device_type_code(device_type: VirtualDeviceType) -> (r: u32)
    ensures
        r == device_code(device_type),
{
    match device_type {
        VirtualDeviceType::DvdRom => 1,
        VirtualDeviceType::HardDisk => 2,
        VirtualDeviceType::UsbMassStorage => 3,
    }
}

/// What the record says about the image.
#[derive(Debug, Clone, Copy, PartialEq, Eq, Structural)]
pub struct OsParamImage {
    pub volume_index: usize,
    pub os_type: OsType,
    pub virtual_size: u64,
    pub start_lba: u64,
    pub block_size: u32,
    /// The image has an El Torito boot catalog.
    pub has_el_torito: bool,
}

/// What the record says about the virtual device.
#[derive(Debug, Clone, Copy, PartialEq, Eq, Structural)]
pub struct OsParamDevice {
    pub device_type: VirtualDeviceType,
    pub block_size: u32,
    pub physical_block_size: u32,
}

/// An extent record: virtual start block, physical LBA, block count.
pub open spec fn extent_record(virtual_block_start: u64, physical_lba: u64, block_count: u64) -> Seq<u8> {
    le_u64_bytes(virtual_block_start) + le_u64_bytes(physical_lba) + le_u64_bytes(block_count)
}

/// The records of the extents, in order.
pub open spec fn extent_records(extents: Seq<IsoExtent>) -> Seq<u8>
    decreases extents.len(),
{
    if extents.len() == 0 {
        Seq::empty()
    } else {
        extent_records(extents.drop_last()) + extent_record(
            extents.last().virtual_block_start,
            extents.last().physical_lba,
            extents.last().block_count,
        )
    }
}

/// How many extent records the payload carries: one made up for an image
/// without extents.
pub open spec fn record_count(extents: Seq<IsoExtent>) -> int {
    if extents.len() == 0 { 1 } else { extents.len() as int }
}

/// Where the extent records start: after the header and the path, rounded
/// up to 8 bytes.
pub open spec fn records_offset(path_len: int) -> Option<usize> {
    if 80 + path_len > usize::MAX {
        None
    } else {
        aligned_up((80 + path_len) as usize, 8)
    }
}

/// The payload's sizes fit: its total in `usize` and in the header's 32-bit
/// field, and the volume index in its 32-bit field.
pub open spec fn payload_fits(path_len: int, extents: Seq<IsoExtent>, volume_index: usize) -> bool {
    &&& records_offset(path_len) is Some
    &&& records_offset(path_len)->Some_0 + record_count(extents) * 24 <= u32::MAX
    &&& volume_index <= u32::MAX
}

/// The record made up for an image without extents: the whole virtual size
/// from the image's start; `None` when the block size is zero or rounding
/// overflows.
pub open spec fn synthetic_record(image: OsParamImage) -> Option<Seq<u8>> {
    match div_rounded_up(image.virtual_size, image.block_size as u64) {
        Some(blocks) => Some(extent_record(0, image.start_lba, blocks)),
        None => None,
    }
}

/// The 80-byte `NextBootOsParam` header: magic `NBOSPARM`, version, header
/// and record sizes, flags, total size, volume index, OS and device codes,
/// virtual size, start LBA, block sizes, record count, and the offsets and
/// lengths of the path and the records. The flags mark a made-up extent
/// record and an El Torito image.
pub open spec fn os_param_header(
    path_len: int,
    image: OsParamImage,
    synthetic: bool,
    device: OsParamDevice,
    count: int,
    offset: int,
) -> Seq<u8> {
    let records_len = count * 24;
    let total = offset + records_len;
    let flags: u16 = ((if synthetic { 1u16 } else { 0u16 }) | (if image.has_el_torito { 2u16 } else { 0u16 }));
    let head = seq![0x4eu8, 0x42, 0x4f, 0x53, 0x50, 0x41, 0x52, 0x4d] + le_u16_bytes(1) + le_u16_bytes(80)
        + le_u16_bytes(24) + le_u16_bytes(flags);
    let image_part = le_u32_bytes(total as u32) + le_u32_bytes(image.volume_index as u32) + le_u32_bytes(
        os_code(image.os_type),
    ) + le_u32_bytes(device_code(device.device_type)) + le_u64_bytes(image.virtual_size) + le_u64_bytes(
        image.start_lba,
    );
    let layout = le_u32_bytes(image.block_size) + le_u32_bytes(device.block_size) + le_u32_bytes(
        device.physical_block_size,
    ) + le_u32_bytes(count as u32) + le_u32_bytes(80) + le_u32_bytes(path_len as u32) + le_u32_bytes(offset as u32)
        + le_u32_bytes(records_len as u32);
    head + image_part + layout
}

/// The `NextBootOsParam` payload: the header, the path, zeros up to the next
/// multiple of 8 bytes, and the extent records.
pub open spec fn os_param_payload(
    path: Seq<u8>,
    image: OsParamImage,
    extents: Seq<IsoExtent>,
    device: OsParamDevice,
    records: Seq<u8>,
) -> Seq<u8> {
    let offset = records_offset(path.len() as int)->Some_0 as int;
    os_param_header(path.len() as int, image, extents.len() == 0, device, record_count(extents), offset) + path
        + Seq::new((offset - 80 - path.len()) as nat, |i: int| 0u8) + records
}

/// Appends the header.
#[verifier::rlimit(40)]
fn push_os_param_header(
    data: &mut Vec<u8>,
    path_len: usize,
    image: OsParamImage,
    synthetic: bool,
    device: OsParamDevice,
    count: usize,
    offset: usize,
    total: usize,
)
    requires
        total == offset + count * 24,
        total <= u32::MAX,
        image.volume_index <= u32::MAX,
        path_len <= offset,
    ensures
        final(data)@ == old(data)@ + os_param_header(
            path_len as int,
            image,
            synthetic,
            device,
            count as int,
            offset as int,
        ),
{
    let s: u16 = if synthetic { NEXTBOOT_OS_PARAM_FLAG_SYNTHETIC_EXTENT } else { 0 };
    let e: u16 = if image.has_el_torito { NEXTBOOT_OS_PARAM_FLAG_EL_TORITO } else { 0 };
    let flags: u16 = s | e;
    let ghost start = data@;
    data.push(0x4e);
    data.push(0x42);
    data.push(0x4f);
    data.push(0x53);
    data.push(0x50);
    data.push(0x41);
    data.push(0x52);
    data.push(0x4d);
    push_u16(data, NEXTBOOT_OS_PARAM_VERSION);
    push_u16(data, 80);
    push_u16(data, 24);
    push_u16(data, flags);
    let ghost head = seq![0x4eu8, 0x42, 0x4f, 0x53, 0x50, 0x41, 0x52, 0x4d] + le_u16_bytes(1) + le_u16_bytes(80)
        + le_u16_bytes(24) + le_u16_bytes(flags);
    assert(data@ =~= start + head);
    push_u32(data, total as u32);
    push_u32(data, image.volume_index as u32);
    push_u32(data, os_type_code(image.os_type));
    push_u32(data, virtual_device_type_code(device.device_type));
    push_u64(data, image.virtual_size);
    push_u64(data, image.start_lba);
    let ghost image_part = le_u32_bytes(total as u32) + le_u32_bytes(image.volume_index as u32) + le_u32_bytes(
        os_code(image.os_type),
    ) + le_u32_bytes(device_code(device.device_type)) + le_u64_bytes(image.virtual_size) + le_u64_bytes(
        image.start_lba,
    );
    assert(data@ =~= start + head + image_part);
    let ghost mid = data@;
    push_u32(data, image.block_size);
    push_u32(data, device.block_size);
    push_u32(data, device.physical_block_size);
    push_u32(data, count as u32);
    push_u32(data, 80);
    push_u32(data, path_len as u32);
    push_u32(data, offset as u32);
    push_u32(data, (count * 24) as u32);
    let ghost layout = le_u32_bytes(image.block_size) + le_u32_bytes(device.block_size) + le_u32_bytes(
        device.physical_block_size,
    ) + le_u32_bytes(count as u32) + le_u32_bytes(80) + le_u32_bytes(path_len as u32) + le_u32_bytes(offset as u32)
        + le_u32_bytes((count * 24) as u32);
    assert(data@ =~= mid + layout);
    assert(data@ =~= start + (head + image_part + layout));
}

/// Appends the records of `extents`.
fn push_extent_records(data: &mut Vec<u8>, extents: &[IsoExtent])
    ensures
        final(data)@ == old(data)@ + extent_records(extents@),
{
    let ghost start = data@;
    let mut k: usize = 0;
    assert(extents@.take(0) =~= Seq::<IsoExtent>::empty());
    assert(data@ =~= start + extent_records(extents@.take(0)));
    while k < extents.len()
        invariant
            k <= extents@.len(),
            data@ == start + extent_records(extents@.take(k as int)),
        decreases extents@.len() - k,
    {
        let e = extents[k];
        push_u64(data, e.virtual_block_start);
        push_u64(data, e.physical_lba);
        push_u64(data, e.block_count);
        assert(extents@.take(k + 1).drop_last() =~= extents@.take(k as int));
        k += 1;
        assert(data@ =~= start + extent_records(extents@.take(k as int)));
    }
    assert(extents@.take(k as int) =~= extents@);
}

/// Appends the bytes of `src`, then zeros up to `len` bytes in all.
fn push_padded(data: &mut Vec<u8>, src: &[u8], len: usize)
    requires
        old(data)@.len() + src@.len() <= len,
    ensures
        final(data)@ == old(data)@ + src@ + Seq::new((len - old(data)@.len() - src@.len()) as nat, |i: int| 0u8),
{
    let ghost start = data@;
    let mut i: usize = 0;
    while i < src.len()
        invariant
            i <= src@.len(),
            data@ == start + src@.take(i as int),
        decreases src@.len() - i,
    {
        data.push(src[i]);
        i += 1;
        assert(data@ =~= start + src@.take(i as int));
    }
    assert(src@.take(i as int) =~= src@);
    let ghost with_src = data@;
    while data.len() < len
        invariant
            with_src == start + src@,
            with_src.len() <= data@.len() <= len,
            data@ == with_src + Seq::new((data@.len() - with_src.len()) as nat, |j: int| 0u8),
        decreases len - data@.len(),
    {
        data.push(0);
        assert(data@ =~= with_src + Seq::new((data@.len() - with_src.len()) as nat, |j: int| 0u8));
    }
}

/// Builds the `NextBootOsParam` payload for the image at `path` with its
/// extents (none for an image whose extents are unknown). Sizes that do not
/// fit their fields give `OutOfResources`, as does a failure to reserve the
/// payload; otherwise `fill_os_param_payload` writes it.
pub fn build_os_param_payload(path: &str, image: OsParamImage, extents: &[IsoExtent], device: OsParamDevice) -> (r:
    Result<Vec<u8>, BootError>)
    ensures
        !payload_fits(path.spec_bytes().len() as int, extents@, image.volume_index) ==> r == Err::<
            Vec<u8>,
            BootError,
        >(BootError::OutOfResources),
        r matches Ok(data) ==> {
            &&& payload_fits(path.spec_bytes().len() as int, extents@, image.volume_index)
            &&& extents@.len() == 0 ==> synthetic_record(image) is Some && data@ == os_param_payload(
                path.spec_bytes(),
                image,
                extents@,
                device,
                synthetic_record(image)->Some_0,
            )
            &&& extents@.len() > 0 ==> data@ == os_param_payload(
                path.spec_bytes(),
                image,
                extents@,
                device,
                extent_records(extents@),
            )
        },
        r == Err::<Vec<u8>, BootError>(BootError::InvalidParameter) ==> payload_fits(
            path.spec_bytes().len() as int,
            extents@,
            image.volume_index,
        ) && extents@.len() == 0 && synthetic_record(image) is None,
        payload_fits(path.spec_bytes().len() as int, extents@, image.volume_index) && extents@.len() == 0
            && synthetic_record(image) is None ==> r is Err,
{
    let total_size = match os_param_payload_size(path.as_bytes().len(), extents.len()) {
        Some(v) => v,
        None => return Err(BootError::OutOfResources),
    };
    let mut data: Vec<u8> = Vec::new();
    if data.try_reserve(total_size).is_err() {
        return Err(BootError::OutOfResources);
    }
    fill_os_param_payload(data, path, image, extents, device)
}

/// The size of the payload for a path of `path_len` bytes and
/// `extent_count` extents, when it fits in a `usize`.
fn os_param_payload_size(path_len: usize, extent_count: usize) -> (r: Option<usize>)
{
    let count: usize = if extent_count == 0 { 1 } else { extent_count };
    let path_end = match NEXTBOOT_OS_PARAM_HEADER_SIZE.checked_add(path_len) {
        Some(v) => v,
        None => return None,
    };
    proof {
        vstd::arithmetic::power2::lemma2_to64();
        assert(8usize == vstd::arithmetic::power2::pow2(3));
    }
    let offset = match align_up(path_end, 8) {
        Some(v) => v,
        None => return None,
    };
    let len = match count.checked_mul(NEXTBOOT_OS_PARAM_EXTENT_RECORD_SIZE) {
        Some(v) => v,
        None => return None,
    };
    offset.checked_add(len)
}

/// Writes the `NextBootOsParam` payload into `data`, an empty buffer with
/// room reserved for it: `OutOfResources` when a size does not fit its
/// field, `InvalidParameter` for an image without extents whose block count
/// cannot be computed, else the payload.
pub fn fill_os_param_payload(
    data: Vec<u8>,
    path: &str,
    image: OsParamImage,
    extents: &[IsoExtent],
    device: OsParamDevice,
) -> (r: Result<Vec<u8>, BootError>)
    requires
        data@.len() == 0,
    ensures
        !payload_fits(path.spec_bytes().len() as int, extents@, image.volume_index) ==> r == Err::<
            Vec<u8>,
            BootError,
        >(BootError::OutOfResources),
        r matches Ok(data) ==> {
            &&& payload_fits(path.spec_bytes().len() as int, extents@, image.volume_index)
            &&& extents@.len() == 0 ==> synthetic_record(image) is Some && data@ == os_param_payload(
                path.spec_bytes(),
                image,
                extents@,
                device,
                synthetic_record(image)->Some_0,
            )
            &&& extents@.len() > 0 ==> data@ == os_param_payload(
                path.spec_bytes(),
                image,
                extents@,
                device,
                extent_records(extents@),
            )
        },
        r == Err::<Vec<u8>, BootError>(BootError::InvalidParameter) ==> payload_fits(
            path.spec_bytes().len() as int,
            extents@,
            image.volume_index,
        ) && extents@.len() == 0 && synthetic_record(image) is None,
        payload_fits(path.spec_bytes().len() as int, extents@, image.volume_index) && extents@.len() == 0
            && synthetic_record(image) is None ==> r is Err,
        payload_fits(path.spec_bytes().len() as int, extents@, image.volume_index) && (extents@.len() > 0
            || synthetic_record(image) is Some) ==> r is Ok,
{
    let path_bytes = path.as_bytes();
    let extent_count: usize = if extents.len() == 0 { 1 } else { extents.len() };
    let path_end = match NEXTBOOT_OS_PARAM_HEADER_SIZE.checked_add(path_bytes.len()) {
        Some(v) => v,
        None => return Err(BootError::OutOfResources),
    };
    proof {
        vstd::arithmetic::power2::lemma2_to64();
        assert(8usize == vstd::arithmetic::power2::pow2(3));
    }
    let extents_offset = match align_up(path_end, 8) {
        Some(v) => v,
        None => return Err(BootError::OutOfResources),
    };
    let extents_len = match extent_count.checked_mul(NEXTBOOT_OS_PARAM_EXTENT_RECORD_SIZE) {
        Some(v) => v,
        None => return Err(BootError::OutOfResources),
    };
    let total_size = match extents_offset.checked_add(extents_len) {
        Some(v) => v,
        None => return Err(BootError::OutOfResources),
    };
    let mut data = data;
    if total_size > u32::MAX as usize || image.volume_index > u32::MAX as usize {
        return Err(BootError::OutOfResources);
    }
    push_os_param_header(
        &mut data,
        path_bytes.len(),
        image,
        extents.len() == 0,
        device,
        extent_count,
        extents_offset,
        total_size,
    );
    push_padded(&mut data, path_bytes, extents_offset);
    if extents.len() == 0 {
        let block_count = match div_round_up(image.virtual_size, image.block_size as u64) {
            Some(v) => v,
            None => return Err(BootError::InvalidParameter),
        };
        let ghost padded = data@;
        push_u64(&mut data, 0);
        push_u64(&mut data, image.start_lba);
        push_u64(&mut data, block_count);
        assert(data@ =~= padded + extent_record(0, image.start_lba, block_count));
    } else {
        push_extent_records(&mut data, extents);
    }
    Ok(data)
}

/// The image's extents moved from partition-relative to disk LBAs; an image
/// without extents is taken as one run from its start LBA over its size.
/// `Err` when a block count rounds past 64 bits (or the block size is zero)
/// or an LBA overflows.
pub open spec fn source_extent_of(e: IsoExtent, offset: u64) -> Option<VentoyExtent> {
    if e.physical_lba + offset > u64::MAX {
        None
    } else {
        Some(
            VentoyExtent {
                virtual_block_start: e.virtual_block_start,
                physical_lba: (e.physical_lba + offset) as u64,
                block_count: e.block_count,
            },
        )
    }
}

/// Builds the disk extents Ventoy's record is built from.
pub fn ventoy_source_extents(
    extents: &[IsoExtent],
    size: u64,
    block_size: u32,
    start_lba: u64,
    partition_start_lba: u64,
) -> (r: Result<Vec<VentoyExtent>, BootError>)
    ensures
        extents@.len() == 0 ==> match r {
            Ok(v) => div_rounded_up(size, block_size as u64) is Some && start_lba + partition_start_lba <= u64::MAX
                && v@ == seq![
                VentoyExtent {
                    virtual_block_start: 0,
                    physical_lba: (start_lba + partition_start_lba) as u64,
                    block_count: div_rounded_up(size, block_size as u64)->Some_0,
                },
            ],
            Err(e) => e == BootError::OutOfResources || (e == BootError::InvalidParameter && div_rounded_up(
                size,
                block_size as u64,
            ) is None),
        },
        extents@.len() == 0 && div_rounded_up(size, block_size as u64) is None ==> r is Err,
        extents@.len() == 0 && start_lba + partition_start_lba > u64::MAX ==> r is Err,
        extents@.len() > 0 ==> match r {
            Ok(v) => v@.len() == extents@.len() && forall|i: int|
                0 <= i < extents@.len() ==> source_extent_of(#[trigger] extents@[i], partition_start_lba) == Some(
                    v@[i],
                ),
            Err(e) => e == BootError::OutOfResources,
        },
        extents@.len() > 0 && (exists|i: int|
            0 <= i < extents@.len() && #[trigger] source_extent_of(extents@[i], partition_start_lba) is None)
            ==> r is Err,
{
    let count: usize = if extents.len() == 0 { 1 } else { extents.len() };
    let mut out: Vec<VentoyExtent> = Vec::new();
    if out.try_reserve(count).is_err() {
        return Err(BootError::OutOfResources);
    }
    fill_ventoy_source_extents(out, extents, size, block_size, start_lba, partition_start_lba)
}

/// Builds the disk extents Ventoy's record is built from in `out`, an empty
/// list with room reserved for them.
pub fn fill_ventoy_source_extents(
    out: Vec<VentoyExtent>,
    extents: &[IsoExtent],
    size: u64,
    block_size: u32,
    start_lba: u64,
    partition_start_lba: u64,
) -> (r: Result<Vec<VentoyExtent>, BootError>)
    requires
        out@.len() == 0,
    ensures
        extents@.len() == 0 ==> match div_rounded_up(size, block_size as u64) {
            None => r == Err::<Vec<VentoyExtent>, BootError>(BootError::InvalidParameter),
            Some(blocks) => if start_lba + partition_start_lba > u64::MAX {
                r == Err::<Vec<VentoyExtent>, BootError>(BootError::OutOfResources)
            } else {
                r matches Ok(v) && v@ == seq![
                    VentoyExtent {
                        virtual_block_start: 0,
                        physical_lba: (start_lba + partition_start_lba) as u64,
                        block_count: blocks,
                    },
                ]
            },
        },
        extents@.len() > 0 ==> if exists|i: int|
            0 <= i < extents@.len() && #[trigger] source_extent_of(extents@[i], partition_start_lba) is None {
            r == Err::<Vec<VentoyExtent>, BootError>(BootError::OutOfResources)
        } else {
            r matches Ok(v) && v@.len() == extents@.len() && forall|i: int|
                0 <= i < extents@.len() ==> source_extent_of(#[trigger] extents@[i], partition_start_lba) == Some(v@[i])
        },
{
    let mut out = out;
    if extents.len() == 0 {
        let block_count = match div_round_up(size, block_size as u64) {
            Some(v) => v,
            None => return Err(BootError::InvalidParameter),
        };
        let physical_lba = match start_lba.checked_add(partition_start_lba) {
            Some(v) => v,
            None => return Err(BootError::OutOfResources),
        };
        out.push(VentoyExtent { virtual_block_start: 0, physical_lba, block_count });
        assert(out@ =~= seq![VentoyExtent { virtual_block_start: 0, physical_lba, block_count }]);
        return Ok(out);
    }
    let mut i: usize = 0;
    while i < extents.len()
        invariant
            i <= extents@.len(),
            extents@.len() > 0,
            out@.len() == i,
            forall|j: int| 0 <= j < i ==> source_extent_of(#[trigger] extents@[j], partition_start_lba) == Some(out@[j]),
        decreases extents@.len() - i,
    {
        let e = extents[i];
        let physical_lba = match e.physical_lba.checked_add(partition_start_lba) {
            Some(v) => v,
            None => return Err(BootError::OutOfResources),
        };
        out.push(VentoyExtent { virtual_block_start: e.virtual_block_start, physical_lba, block_count: e.block_count });
        i += 1;
    }
    Ok(out)
}

/// Ventoy's image regions in the preferred sector size (2048 bytes for an
/// ISO, else the virtual device's block size); when the extents do not align
/// to it, in the source's own block size. The source disk's sector size must
/// be the volume's. Gives the image sector size used, the disk sector size
/// and the regions.
pub open spec fn image_regions(
    extents: Seq<VentoyExtent>,
    volume_block_size: u32,
    disk_sector_size: u32,
    is_iso: bool,
    device_block_size: u32,
) -> Result<(u32, u32, Seq<VentoyImageRegion>), BootError> {
    let preferred: u32 = if is_iso { 2048 } else { device_block_size };
    if disk_sector_size != volume_block_size {
        Err(BootError::Unsupported)
    } else if volume_block_size == 0 || preferred == 0 {
        Err(BootError::InvalidParameter)
    } else {
        match extents_regions(extents, volume_block_size, preferred) {
            Ok(regions) => Ok((preferred, disk_sector_size, regions)),
            Err(VentoyParamError::UnalignedExtent) => if preferred != volume_block_size {
                match extents_regions(extents, volume_block_size, volume_block_size) {
                    Ok(regions) => Ok((volume_block_size, disk_sector_size, regions)),
                    Err(e) => Err(ventoy_error_kind(e)),
                }
            } else {
                Err(BootError::Unsupported)
            },
            Err(e) => Err(ventoy_error_kind(e)),
        }
    }
}

/// Lays the image out as Ventoy's image regions.
pub fn build_image_regions(
    extents: &[VentoyExtent],
    volume_block_size: u32,
    disk_sector_size: u32,
    is_iso: bool,
    device_block_size: u32,
) -> (r: Result<(u32, u32, Vec<VentoyImageRegion>), BootError>)
    ensures
        match r {
            Ok((a, b, v)) => image_regions(extents@, volume_block_size, disk_sector_size, is_iso, device_block_size)
                == Ok::<(u32, u32, Seq<VentoyImageRegion>), BootError>((a, b, v@)),
            Err(e) => e == BootError::OutOfResources || image_regions(
                extents@,
                volume_block_size,
                disk_sector_size,
                is_iso,
                device_block_size,
            ) == Err::<(u32, u32, Seq<VentoyImageRegion>), BootError>(e),
        },
{
    if disk_sector_size != volume_block_size {
        return Err(BootError::Unsupported);
    }
    let preferred: u32 = if is_iso { 2048 } else { device_block_size };
    match build_ventoy_image_regions(extents, volume_block_size, preferred) {
        Ok(regions) => Ok((preferred, disk_sector_size, regions)),
        Err(VentoyParamError::UnalignedExtent) => {
            if preferred != volume_block_size {
                match build_ventoy_image_regions(extents, volume_block_size, volume_block_size) {
                    Ok(regions) => Ok((volume_block_size, disk_sector_size, regions)),
                    Err(e) => Err(ventoy_error_status(e)),
                }
            } else {
                Err(ventoy_error_status(VentoyParamError::UnalignedExtent))
            }
        },
        Err(e) => Err(ventoy_error_status(e)),
    }
}

} // verus!
