//! Dynamic VHD images: the footer and the dynamic disk header.

use crate::scanner::helpers::{be_value, read_be_u32, read_be_u64};
use vstd::prelude::*;

verus! {

pub const SECTOR_SIZE: u64 = 512;
pub const FOOTER_SIZE: usize = 512;
pub const DYNAMIC_HEADER_SIZE: usize = 1024;
pub const UNUSED_BAT_ENTRY: u32 = 0xffff_ffff;

/// Where a dynamic VHD's header is and how large its disk is.
#[derive(Debug, Clone, Copy, PartialEq, Eq, Structural)]
pub struct DynamicFooter {
    pub data_offset: u64,
    pub virtual_size: u64,
}

/// Where a dynamic VHD's block table is and how its blocks are laid out.
#[derive(Debug, Clone, Copy, PartialEq, Eq, Structural)]
pub struct DynamicHeader {
    pub table_offset: u64,
    pub header_version: u32,
    pub max_table_entries: u32,
    pub block_size: u32,
}

/// The 8-byte cookie `s` starts with, given as its bytes.
pub open spec fn has_cookie(s: Seq<u8>, cookie: Seq<u8>) -> bool {
    s.len() >= 8 && s.subrange(0, 8) == cookie
}

/// `"conectix"`.
pub open spec fn footer_cookie() -> Seq<u8> {
    seq![0x63u8, 0x6f, 0x6e, 0x65, 0x63, 0x74, 0x69, 0x78]
}

/// `"cxsparse"`.
pub open spec fn sparse_cookie() -> Seq<u8> {
    seq![0x63u8, 0x78, 0x73, 0x70, 0x61, 0x72, 0x73, 0x65]
}

/// A full footer with the cookie, of disk type 3 (dynamic), whose header
/// offset is set.
pub open spec fn dynamic_footer(data: Seq<u8>) -> Option<DynamicFooter> {
    if data.len() < 512 || !has_cookie(data, footer_cookie()) || be_value(data, 16, 8) == u64::MAX
        || be_value(data, 60, 4) != 3 {
        None
    } else {
        Some(DynamicFooter { data_offset: be_value(data, 16, 8) as u64, virtual_size: be_value(data, 48, 8) as u64 })
    }
}

/// Whether the first 8 bytes of `data` are `cookie`.
fn cookie_matches(data: &[u8], cookie: &[u8; 8]) -> (r: bool)
    requires
        data@.len() >= 8,
    ensures
        r == (data@.subrange(0, 8) == cookie@),
{
    let mut i: usize = 0;
    while i < 8
        invariant
            i <= 8,
            data@.len() >= 8,
            forall|j: int| 0 <= j < i ==> data@[j] == cookie@[j],
        decreases 8 - i,
    {
        if data[i] != cookie[i] {
            assert(data@.subrange(0, 8)[i as int] != cookie@[i as int]);
            return false;
        }
        i += 1;
    }
    assert(data@.subrange(0, 8) =~= cookie@);
    true
}

/// Reads the footer of a dynamic VHD.
pub fn parse_dynamic_footer(data: &[u8]) -> (r: Option<DynamicFooter>)
    ensures
        r == dynamic_footer(data@),
{
    if data.len() < FOOTER_SIZE {
        return None;
    }
    let cookie: [u8; 8] = [0x63, 0x6f, 0x6e, 0x65, 0x63, 0x74, 0x69, 0x78];
    assert(cookie@ =~= footer_cookie());
    if !cookie_matches(data, &cookie) {
        return None;
    }
    let data_offset = read_be_u64(data, 16);
    let virtual_size = read_be_u64(data, 48);
    let disk_type = read_be_u32(data, 60);
    match (data_offset, virtual_size, disk_type) {
        (Some(data_offset), Some(virtual_size), Some(disk_type)) => {
            if data_offset == u64::MAX || disk_type != 3 {
                None
            } else {
                Some(DynamicFooter { data_offset, virtual_size })
            }
        },
        _ => None,
    }
}

/// A full dynamic disk header with the cookie, whose block table offset is
/// set and which has at least one block of non-zero size.
pub open spec fn dynamic_header(data: Seq<u8>) -> Option<DynamicHeader> {
    if data.len() < 1024 || !has_cookie(data, sparse_cookie()) || be_value(data, 16, 8) == u64::MAX
        || be_value(data, 28, 4) == 0 || be_value(data, 32, 4) == 0 {
        None
    } else {
        Some(
            DynamicHeader {
                table_offset: be_value(data, 16, 8) as u64,
                header_version: be_value(data, 24, 4) as u32,
                max_table_entries: be_value(data, 28, 4) as u32,
                block_size: be_value(data, 32, 4) as u32,
            },
        )
    }
}

/// Reads the dynamic disk header of a VHD.
pub fn parse_dynamic_header(data: &[u8]) -> (r: Option<DynamicHeader>)
    ensures
        r == dynamic_header(data@),
{
    if data.len() < DYNAMIC_HEADER_SIZE {
        return None;
    }
    let cookie: [u8; 8] = [0x63, 0x78, 0x73, 0x70, 0x61, 0x72, 0x73, 0x65];
    assert(cookie@ =~= sparse_cookie());
    if !cookie_matches(data, &cookie) {
        return None;
    }
    let table_offset = read_be_u64(data, 16);
    let header_version = read_be_u32(data, 24);
    let max_table_entries = read_be_u32(data, 28);
    let block_size = read_be_u32(data, 32);
    match (table_offset, header_version, max_table_entries, block_size) {
        (Some(table_offset), Some(header_version), Some(max_table_entries), Some(block_size)) => {
            if table_offset == u64::MAX || max_table_entries == 0 || block_size == 0 {
                None
            } else {
                Some(DynamicHeader { table_offset, header_version, max_table_entries, block_size })
            }
        },
        _ => None,
    }
}

} // verus!
