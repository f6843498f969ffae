//! The virtual CD an ISO is booted from: where Ventoy's `conf_replace`
//! files are placed in it.
//!
//! Replacement files are appended after the image, each padded to whole
//! 2048-byte sectors, and the replaced file's directory record is pointed at
//! its copy. The caller loads each replacement and, for ISO 9660, finds the
//! replaced file's directory record; it then asks
//! [`place_conf_replacement`] where the copy goes and
//! [`iso9660_replacement_overlay`] for the bytes that repoint the record.

use super::util::{aligned_up, aligned_up_u64, align_up, align_up_u64, extent_patch, iso9660_file_extent_patch};
use vstd::prelude::*;

verus! {

pub const ISO9660_SECTOR_SIZE: u64 = 2048;
pub const VENTOY_CONF_REPLACE_MAX_SIZE: usize = 0x10_0000;

/// Why the virtual CD could not be laid out.
#[derive(Debug, Clone, Copy, PartialEq, Eq, Structural)]
pub enum ConfReplaceError {
    /// An offset or size does not fit its field.
    OutOfResources,
}

/// Where the first replacement goes: the image size rounded up to a sector.
pub fn conf_replace_start_offset(iso_size: u64) -> (r: Result<u64, ConfReplaceError>)
    ensures
        r == (match aligned_up_u64(iso_size, ISO9660_SECTOR_SIZE) {
            Some(v) => Ok(v),
            None => Err(ConfReplaceError::OutOfResources),
        }),
{
    match align_up_u64(iso_size, ISO9660_SECTOR_SIZE) {
        Some(v) => Ok(v),
        None => Err(ConfReplaceError::OutOfResources),
    }
}

/// Where one replacement file goes in the virtual CD.
#[derive(Debug, Clone, Copy, PartialEq, Eq, Structural)]
pub struct ConfReplacement {
    /// Byte offset of the copy; a sector boundary when the first offset was.
    pub data_offset: u64,
    /// Its first sector.
    pub sector: u64,
    /// The file's own length.
    pub size: u64,
    /// Its length padded to whole sectors.
    pub padded_len: usize,
    /// Where the next replacement goes.
    pub next_append_offset: u64,
}

/// A replacement of `len` bytes goes at `next_append_offset`, padded to
/// whole sectors; one over 1 MiB is passed over (`Ok(None)`). A padded
/// length or next offset that does not fit is an error.
pub open spec fn conf_replacement(next_append_offset: u64, len: usize) -> Result<Option<ConfReplacement>, ConfReplaceError> {
    if len > 0x10_0000 {
        Ok(None)
    } else {
        match aligned_up(len, 2048) {
            None => Err(ConfReplaceError::OutOfResources),
            Some(padded) => if next_append_offset + padded > u64::MAX {
                Err(ConfReplaceError::OutOfResources)
            } else {
                Ok(
                    Some(
                        ConfReplacement {
                            data_offset: next_append_offset,
                            sector: next_append_offset / 2048,
                            size: len as u64,
                            padded_len: padded,
                            next_append_offset: (next_append_offset + padded) as u64,
                        },
                    ),
                )
            },
        }
    }
}

/// Places a replacement file of `replacement_len` bytes.
pub fn place_conf_replacement(next_append_offset: u64, replacement_len: usize) -> (r: Result<
    Option<ConfReplacement>,
    ConfReplaceError,
>)
    ensures
        r == conf_replacement(next_append_offset, replacement_len),
        r matches Ok(Some(p)) ==> {
            &&& p.data_offset + p.padded_len == p.next_append_offset
            &&& p.size <= p.padded_len
            &&& p.padded_len % 2048 == 0
            &&& next_append_offset % 2048 == 0 ==> p.next_append_offset % 2048 == 0 && p.sector * 2048 == p.data_offset
        },
{
    if replacement_len > VENTOY_CONF_REPLACE_MAX_SIZE {
        return Ok(None);
    }
    proof {
        vstd::arithmetic::power2::lemma2_to64();
        assert(2048usize == vstd::arithmetic::power2::pow2(11));
    }
    let padded_len = match align_up(replacement_len, 2048) {
        Some(v) => v,
        None => return Err(ConfReplaceError::OutOfResources),
    };
    assert(next_append_offset % 2048 == 0 ==> (next_append_offset + padded_len) % 2048 == 0 && (next_append_offset
        / 2048) * 2048 == next_append_offset) by (nonlinear_arith)
        requires
            padded_len % 2048 == 0,
    ;
    let next = match next_append_offset.checked_add(padded_len as u64) {
        Some(v) => v,
        None => return Err(ConfReplaceError::OutOfResources),
    };
    Ok(
        Some(
            ConfReplacement {
                data_offset: next_append_offset,
                sector: next_append_offset / ISO9660_SECTOR_SIZE,
                size: replacement_len as u64,
                padded_len,
                next_append_offset: next,
            },
        ),
    )
}

/// The overlay that repoints an ISO 9660 directory record (at
/// `record_offset`) at a placed replacement: the both-endian extent fields,
/// two bytes into the record. The sector and size must fit in 32 bits.
pub open spec fn iso9660_overlay(record_offset: u64, placed: ConfReplacement) -> Result<(u64, Seq<u8>), ConfReplaceError> {
    if placed.size > u32::MAX || placed.sector > u32::MAX || record_offset + 2 > u64::MAX {
        Err(ConfReplaceError::OutOfResources)
    } else {
        Ok(((record_offset + 2) as u64, extent_patch(placed.sector as u32, placed.size as u32)))
    }
}

/// Builds the overlay that repoints a directory record.
pub fn iso9660_replacement_overlay(record_offset: u64, placed: ConfReplacement) -> (r: Result<
    (u64, Vec<u8>),
    ConfReplaceError,
>)
    ensures
        match (r, iso9660_overlay(record_offset, placed)) {
            (Ok((offset, bytes)), Ok((o, b))) => offset == o && bytes@ == b,
            (Err(e), Err(f)) => e == f,
            _ => false,
        },
{
    if placed.size > u32::MAX as u64 || placed.sector > u32::MAX as u64 {
        return Err(ConfReplaceError::OutOfResources);
    }
    let patch_offset = match record_offset.checked_add(2) {
        Some(v) => v,
        None => return Err(ConfReplaceError::OutOfResources),
    };
    Ok((patch_offset, iso9660_file_extent_patch(placed.sector as u32, placed.size as u32)))
}

/// `data` followed by zeros up to `padded_len` bytes (or `data` as it is
/// when it is already that long).
pub fn pad_replacement(data: Vec<u8>, padded_len: usize) -> (r: Vec<u8>)
    ensures
        data@.len() >= padded_len ==> r@ == data@,
        data@.len() < padded_len ==> r@ == data@ + Seq::new((padded_len - data@.len()) as nat, |i: int| 0u8),
{
    let mut out = data;
    let ghost original = out@;
    while out.len() < padded_len
        invariant
            original.len() <= out@.len() || original.len() >= padded_len,
            original.len() >= padded_len ==> out@ == original,
            original.len() < padded_len ==> out@.len() <= padded_len && out@ == original + Seq::new(
                (out@.len() - original.len()) as nat,
                |i: int| 0u8,
            ),
        decreases padded_len - out@.len(),
    {
        out.push(0);
        assert(out@ =~= original + Seq::new((out@.len() - original.len()) as nat, |i: int| 0u8));
    }
    proof {
        if original.len() < padded_len {
            assert(out@.len() == padded_len);
        }
    }
    out
}

/// The virtual CD's size once replacements were appended up to
/// `next_append_offset`: it grows to take them in, and stays as it was when
/// nothing was appended.
pub fn grown_iso_size(iso_size: u64, next_append_offset: u64, appended: bool) -> (r: u64)
    ensures
        r == (if appended && next_append_offset > iso_size { next_append_offset } else { iso_size }),
{
    if appended && next_append_offset > iso_size {
        next_append_offset
    } else {
        iso_size
    }
}

} // verus!
