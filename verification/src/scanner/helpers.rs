//! Small decoders shared by the image scanners.

use super::model::{ImageFormat, IsoExtent};
use crate::bytes::{read_le_u32, read_le_u64};
use vstd::prelude::*;

verus! {

/// The block ends with the `55 AA` boot signature.
pub open spec fn mbr_signature(block: Seq<u8>) -> bool {
    block.len() > 511 && block[510] == 0x55 && block[511] == 0xaa
}

/// Whether the block ends with the `55 AA` boot signature.
pub fn has_mbr_signature(block: &[u8]) -> (r: bool)
    ensures
        r == mbr_signature(block@),
{
    block.len() > 511 && block[510] == 0x55 && block[511] == 0xaa
}

/// The extents with `lba_offset` added to every physical LBA; `None` when
/// one would overflow.
pub open spec fn offset_extents(extents: Seq<IsoExtent>, lba_offset: u64) -> Option<Seq<IsoExtent>> {
    if exists|i: int| 0 <= i < extents.len() && extents[i].physical_lba + lba_offset > u64::MAX {
        None
    } else {
        Some(extents.map_values(|e: IsoExtent| IsoExtent { physical_lba: (e.physical_lba + lba_offset) as u64, ..e }))
    }
}

/// File extents relative to a partition, made relative to its disk.
pub fn offset_extents_for_physical_read(extents: &[IsoExtent], lba_offset: u64) -> (r: Option<Vec<IsoExtent>>)
    ensures
        offset_extents(extents@, lba_offset) is None <==> r is None,
        r matches Some(v) ==> offset_extents(extents@, lba_offset) == Some(v@),
{
    let mut out: Vec<IsoExtent> = Vec::new();
    let mut i: usize = 0;
    while i < extents.len()
        invariant
            i <= extents@.len(),
            out@ == extents@.take(i as int).map_values(|e: IsoExtent| IsoExtent { physical_lba: (e.physical_lba + lba_offset) as u64, ..e }),
            forall|j: int| 0 <= j < i ==> extents@[j].physical_lba + lba_offset <= u64::MAX,
        decreases extents@.len() - i,
    {
        let extent = extents[i];
        let physical_lba = match extent.physical_lba.checked_add(lba_offset) {
            Some(v) => v,
            None => return None,
        };
        out.push(IsoExtent { virtual_block_start: extent.virtual_block_start, physical_lba, block_count: extent.block_count });
        i += 1;
        assert(out@ =~= extents@.take(i as int).map_values(|e: IsoExtent| IsoExtent { physical_lba: (e.physical_lba + lba_offset) as u64, ..e }));
    }
    assert(extents@.take(i as int) =~= extents@);
    Some(out)
}

/// What a VHD footer says about the image.
#[derive(Debug, Clone, Copy, PartialEq, Eq, Structural)]
pub struct VhdFooterInfo {
    pub image_format: ImageFormat,
    pub virtual_size: u64,
}

/// Big-endian value of `n` bytes from `off`.
pub open spec fn be_value(s: Seq<u8>, off: int, n: nat) -> int
    decreases n,
{
    if n == 0 {
        0
    } else {
        be_value(s, off, (n - 1) as nat) * 256 + s[off + n - 1]
    }
}

/// Reads a big-endian `u32` at `offset`; `None` when it does not fit.
pub fn read_be_u32(data: &[u8], offset: usize) -> (r: Option<u32>)
    ensures
        r is Some <==> offset + 4 <= data@.len(),
        r matches Some(v) ==> v == be_value(data@, offset as int, 4),
{
    if offset > data.len() || data.len() - offset < 4 {
        return None;
    }
    let b0 = data[offset] as u32;
    let b1 = data[offset + 1] as u32;
    let b2 = data[offset + 2] as u32;
    let b3 = data[offset + 3] as u32;
    proof {
        reveal_with_fuel(be_value, 5);
    }
    Some(b0 * 0x100_0000 + b1 * 0x1_0000 + b2 * 0x100 + b3)
}

/// Reads a big-endian `u64` at `offset`; `None` when it does not fit.
pub fn read_be_u64(data: &[u8], offset: usize) -> (r: Option<u64>)
    ensures
        r is Some <==> offset + 8 <= data@.len(),
        r matches Some(v) ==> v == be_value(data@, offset as int, 8),
{
    if offset > data.len() || data.len() - offset < 8 {
        return None;
    }
    let hi = read_be_u32(data, offset);
    let lo = read_be_u32(data, offset + 4);
    match (hi, lo) {
        (Some(h), Some(l)) => {
            proof {
                lemma_be_value_split(data@, offset as int, 4, 4);
                reveal_with_fuel(vstd::arithmetic::power::pow, 5);
            }
            Some((h as u64) * 0x1_0000_0000 + l as u64)
        },
        _ => None,
    }
}

/// The big-endian value of `a + b` bytes is that of the first `a`, shifted,
/// plus that of the next `b`.
proof fn lemma_be_value_split(s: Seq<u8>, off: int, a: nat, b: nat)
    ensures
        be_value(s, off, a + b) == be_value(s, off, a) * vstd::arithmetic::power::pow(256, b)
            + be_value(s, off + a, b),
    decreases b,
{
    if b == 0 {
        vstd::arithmetic::power::lemma_pow0(256);
    } else {
        lemma_be_value_split(s, off, a, (b - 1) as nat);
        vstd::arithmetic::power::lemma_pow_adds(256, (b - 1) as nat, 1);
        vstd::arithmetic::power::lemma_pow1(256);
        let x = be_value(s, off, a);
        let p = vstd::arithmetic::power::pow(256, (b - 1) as nat);
        let y = be_value(s, off + a, (b - 1) as nat);
        assert((x * p + y) * 256 == x * (p * 256) + y * 256) by (nonlinear_arith);
        assert(off + (a + b) - 1 == (off + a) + b - 1);
    }
}

/// The `"conectix"` cookie that starts a VHD footer.
pub open spec fn vhd_cookie() -> Seq<u8> {
    seq![0x63u8, 0x6f, 0x6e, 0x65, 0x63, 0x74, 0x69, 0x78]
}

/// What the 512-byte VHD footer `f` describes, `None` when it is short, lacks
/// the cookie, or gives a zero size.
pub open spec fn vhd_footer(f: Seq<u8>) -> Option<VhdFooterInfo> {
    if f.len() < 512 || f.subrange(0, 8) != vhd_cookie() || be_value(f, 48, 8) == 0 {
        None
    } else {
        let disk_type = be_value(f, 60, 4);
        Some(VhdFooterInfo {
            image_format: if disk_type == 2 {
                ImageFormat::FixedVhd
            } else if disk_type == 3 {
                ImageFormat::DynamicVhd
            } else if disk_type == 4 {
                ImageFormat::DifferencingVhd
            } else {
                ImageFormat::Vhd
            },
            virtual_size: be_value(f, 48, 8) as u64,
        })
    }
}

/// Reads a VHD footer.
pub fn parse_vhd_footer(footer: &[u8]) -> (r: Option<VhdFooterInfo>)
    ensures
        r == vhd_footer(footer@),
{
    if footer.len() < 512 {
        return None;
    }
    if !(footer[0] == 0x63 && footer[1] == 0x6f && footer[2] == 0x6e && footer[3] == 0x65 && footer[4] == 0x63
        && footer[5] == 0x74 && footer[6] == 0x69 && footer[7] == 0x78) {
        proof {
            let c = footer@.subrange(0, 8);
            assert(c[0] == footer@[0] && c[1] == footer@[1] && c[2] == footer@[2] && c[3] == footer@[3]);
            assert(c[4] == footer@[4] && c[5] == footer@[5] && c[6] == footer@[6] && c[7] == footer@[7]);
        }
        return None;
    }
    assert(footer@.subrange(0, 8) =~= vhd_cookie());
    let virtual_size = read_be_u64(footer, 48)?;
    let disk_type = read_be_u32(footer, 60)?;
    if virtual_size == 0 {
        return None;
    }
    Some(VhdFooterInfo { image_format: ImageFormat::from_vhd_disk_type(disk_type), virtual_size })
}

/// Logical block size of the virtual disk for formats that use 512-byte
/// sectors; `None` for the others.
pub fn default_virtual_block_size(image_format: ImageFormat) -> (r: Option<u32>)
    ensures
        r == (if image_format == ImageFormat::RawDisk || image_format == ImageFormat::FixedVhd
            || image_format == ImageFormat::DynamicVhd || image_format == ImageFormat::Vdi {
            Some(512u32)
        } else {
            None
        }),
{
    if image_format.uses_512_byte_virtual_sectors() {
        Some(512)
    } else {
        None
    }
}

/// `value / divisor` rounded up, with the sum saturating; `0` for a zero
/// divisor.
pub fn div_round_up_usize(value: usize, divisor: usize) -> (r: usize)
    ensures
        divisor == 0 ==> r == 0,
        divisor != 0 ==> r == (if value + divisor - 1 > usize::MAX { usize::MAX as int } else { value + divisor - 1 }) / (divisor as int),
{
    if divisor == 0 {
        0
    } else {
        value.saturating_add(divisor - 1) / divisor
    }
}


/// `value / divisor` rounded up, the sum `value + divisor - 1` saturating at
/// `usize::MAX`.
pub open spec fn saturating_div_round_up(value: usize, divisor: usize) -> int {
    (if value + divisor - 1 > usize::MAX { usize::MAX as int } else { value + divisor - 1 }) / (divisor as int)
}

/// How many bytes to read, in whole blocks of `block_size` from `start_lba`,
/// to get the first `byte_len` bytes there: `Some(0)` for nothing to read,
/// `None` when the blocks run past a disk of `total_blocks` blocks or the
/// length does not fit.
pub open spec fn block_range_len(start_lba: u64, byte_len: usize, block_size: u32, total_blocks: u64) -> Option<usize> {
    if byte_len == 0 {
        Some(0)
    } else if block_size == 0 {
        None
    } else {
        let count = saturating_div_round_up(byte_len, block_size as usize);
        if start_lba + count > total_blocks || count * block_size > usize::MAX {
            None
        } else {
            Some((count * block_size) as usize)
        }
    }
}

/// Decides how many bytes of whole blocks to read for a byte range at
/// `start_lba`; the caller reads them and keeps the first `byte_len`.
pub fn block_range_read_len(start_lba: u64, byte_len: usize, block_size: u32, total_blocks: u64) -> (r: Option<usize>)
    ensures
        r == block_range_len(start_lba, byte_len, block_size, total_blocks),
{
    if byte_len == 0 {
        return Some(0);
    }
    let block_size = block_size as usize;
    if block_size == 0 {
        return None;
    }
    let block_count = div_round_up_usize(byte_len, block_size);
    let end = match start_lba.checked_add(block_count as u64) {
        Some(end) => end,
        None => return None,
    };
    if end > total_blocks {
        return None;
    }
    let len = match block_count.checked_mul(block_size) {
        Some(len) => len,
        None => return None,
    };
    Some(len)
}

} // verus!
