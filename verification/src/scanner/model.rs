//! The records the scanner produces for each image.

use crate::text::{
    chars_of, contains, contains_seq, ends_with, ends_with_seq, string_from_chars, to_lowercase, unicode_lowercase,
};
use crate::source_disk::PartitionFormat;
use vstd::prelude::*;

verus! {

/// Where a file lies on its volume: a run of blocks.
#[derive(Debug, Clone, Copy, PartialEq, Eq, Structural)]
pub struct IsoExtent {
    pub virtual_block_start: u64,
    pub physical_lba: u64,
    pub block_count: u64,
}

/// The El Torito boot image of an ISO.
#[derive(Debug, Clone, Copy, PartialEq, Eq, Structural)]
pub struct IsoBootInfo {
    pub catalog_lba: u32,
    pub boot_entry: u32,
    pub platform_id: u8,
    pub image_lba: u32,
    pub image_block_count: u64,
    pub sector_count: u16,
}

impl IsoBootInfo {
    /// The boot entry is for the EFI platform.
    pub fn is_efi(&self) -> (r: bool)
        ensures
            r == (self.platform_id == 0xEF),
    {
        self.platform_id == 0xEF
    }
}

/// Compression of a WIM/ESD container.
#[derive(Debug, Clone, Copy, PartialEq, Eq, Structural)]
pub enum WimCompression {
    Uncompressed,
    Xpress,
    Lzx,
    Lzms,
}

/// Boot metadata of a WIM/ESD container.
#[derive(Debug, Clone, Copy, PartialEq, Eq, Structural)]
pub struct WimBootInfo {
    pub header_len: u32,
    pub version: u32,
    pub flags: u32,
    pub compression: WimCompression,
    pub chunk_len: u32,
    pub image_count: u32,
    pub boot_index: u32,
    pub boot_index_in_range: bool,
    pub wimboot_supported: bool,
}

impl WimBootInfo {
    /// The container names a boot image.
    pub fn is_bootable(&self) -> (r: bool)
        ensures
            r == (self.boot_index != 0),
    {
        self.boot_index != 0
    }
}

/// A partition's place on its disk.
#[derive(Debug, Clone, Copy, PartialEq, Eq, Structural)]
pub struct PartitionRange {
    pub start_lba: u64,
    pub block_count: u64,
}

impl PartitionRange {
    /// The range starts at `start_lba` and spans `block_count` blocks.
    pub fn matches(self, start_lba: u64, block_count: u64) -> (r: bool)
        ensures
            r == (self.start_lba == start_lba && self.block_count == block_count),
    {
        self.start_lba == start_lba && self.block_count == block_count
    }
}

/// One entry of an MBR (or EBR) partition table.
#[derive(Debug, Clone, Copy, PartialEq, Eq, Structural)]
pub struct MbrPartitionEntry {
    pub partition_type: u8,
    pub start_lba: u32,
    pub total_sectors: u32,
}

/// A partition found on a raw disk, numbered as firmware numbers it.
#[derive(Debug, Clone, Copy, PartialEq, Eq, Structural)]
pub struct PartitionCandidate {
    pub number: u32,
    pub start_lba: u64,
    pub block_count: u64,
    pub format: PartitionFormat,
}

/// Bootable image formats.
#[derive(Debug, Clone, Copy, PartialEq, Eq, Structural)]
pub enum ImageFormat {
    Iso,
    Wim,
    Esd,
    EfiExecutable,
    RawDisk,
    Vhd,
    FixedVhd,
    DynamicVhd,
    DifferencingVhd,
    Vhdx,
    Vdi,
    Unknown,
}

/// The format the extension of an already lowercased file name names.
pub open spec fn format_for_name(lower: Seq<char>) -> ImageFormat {
    if ends_with_seq(lower, seq!['.', 'i', 's', 'o']) {
        ImageFormat::Iso
    } else if ends_with_seq(lower, seq!['.', 'w', 'i', 'm']) {
        ImageFormat::Wim
    } else if ends_with_seq(lower, seq!['.', 'e', 's', 'd']) {
        ImageFormat::Esd
    } else if ends_with_seq(lower, seq!['.', 'e', 'f', 'i']) {
        ImageFormat::EfiExecutable
    } else if ends_with_seq(lower, seq!['.', 'i', 'm', 'g']) {
        ImageFormat::RawDisk
    } else if ends_with_seq(lower, seq!['.', 'v', 'h', 'd']) {
        ImageFormat::Vhd
    } else if ends_with_seq(lower, seq!['.', 'v', 'h', 'd', 'x']) {
        ImageFormat::Vhdx
    } else if ends_with_seq(lower, seq!['.', 'v', 'd', 'i']) {
        ImageFormat::Vdi
    } else {
        ImageFormat::Unknown
    }
}

/// The name a format is shown under.
pub open spec fn format_name(format: ImageFormat) -> Seq<char> {
    match format {
        ImageFormat::Iso => seq!['I', 'S', 'O'],
        ImageFormat::Wim => seq!['W', 'I', 'M'],
        ImageFormat::Esd => seq!['E', 'S', 'D'],
        ImageFormat::EfiExecutable => seq!['E', 'F', 'I'],
        ImageFormat::RawDisk => seq!['R', 'A', 'W'],
        ImageFormat::Vhd => seq!['V', 'H', 'D'],
        ImageFormat::FixedVhd => seq!['F', 'i', 'x', 'e', 'd', ' ', 'V', 'H', 'D'],
        ImageFormat::DynamicVhd => seq!['D', 'y', 'n', 'a', 'm', 'i', 'c', ' ', 'V', 'H', 'D'],
        ImageFormat::DifferencingVhd => seq![
            'D', 'i', 'f', 'f', 'e', 'r', 'e', 'n', 'c', 'i', 'n', 'g', ' ', 'V', 'H', 'D',
        ],
        ImageFormat::Vhdx => seq!['V', 'H', 'D', 'X'],
        ImageFormat::Vdi => seq!['V', 'D', 'I'],
        ImageFormat::Unknown => seq!['U', 'n', 'k', 'n', 'o', 'w', 'n'],
    }
}

impl ImageFormat {
    /// The name the format is shown under in menus and logs.
    pub fn display_name(self) -> (r: String)
        ensures
            r@ == format_name(self),
    {
        let chars: Vec<char> = match self {
            ImageFormat::Iso => vec!['I', 'S', 'O'],
            ImageFormat::Wim => vec!['W', 'I', 'M'],
            ImageFormat::Esd => vec!['E', 'S', 'D'],
            ImageFormat::EfiExecutable => vec!['E', 'F', 'I'],
            ImageFormat::RawDisk => vec!['R', 'A', 'W'],
            ImageFormat::Vhd => vec!['V', 'H', 'D'],
            ImageFormat::FixedVhd => vec!['F', 'i', 'x', 'e', 'd', ' ', 'V', 'H', 'D'],
            ImageFormat::DynamicVhd => vec!['D', 'y', 'n', 'a', 'm', 'i', 'c', ' ', 'V', 'H', 'D'],
            ImageFormat::DifferencingVhd => vec![
                'D', 'i', 'f', 'f', 'e', 'r', 'e', 'n', 'c', 'i', 'n', 'g', ' ', 'V', 'H', 'D',
            ],
            ImageFormat::Vhdx => vec!['V', 'H', 'D', 'X'],
            ImageFormat::Vdi => vec!['V', 'D', 'I'],
            ImageFormat::Unknown => vec!['U', 'n', 'k', 'n', 'o', 'w', 'n'],
        };
        assert(chars@ =~= format_name(self));
        string_from_chars(chars.as_slice())
    }

    /// The format named by the file extension of `path`, ignoring case.
    pub fn detect_from_path(path: &str) -> (r: Self)
        ensures
            r == format_for_name(unicode_lowercase(path@)),
    {
        let lower = to_lowercase(path);
        Self::detect_from_lowercase_name(lower.as_str())
    }

    /// The format named by the extension of a lowercased file name.
    pub fn detect_from_lowercase_name(name: &str) -> (r: Self)
        ensures
            r == format_for_name(name@),
    {
        let lower = chars_of(name);
        if ends_with(lower.as_slice(), &['.', 'i', 's', 'o']) {
            ImageFormat::Iso
        } else if ends_with(lower.as_slice(), &['.', 'w', 'i', 'm']) {
            ImageFormat::Wim
        } else if ends_with(lower.as_slice(), &['.', 'e', 's', 'd']) {
            ImageFormat::Esd
        } else if ends_with(lower.as_slice(), &['.', 'e', 'f', 'i']) {
            ImageFormat::EfiExecutable
        } else if ends_with(lower.as_slice(), &['.', 'i', 'm', 'g']) {
            ImageFormat::RawDisk
        } else if ends_with(lower.as_slice(), &['.', 'v', 'h', 'd']) {
            ImageFormat::Vhd
        } else if ends_with(lower.as_slice(), &['.', 'v', 'h', 'd', 'x']) {
            ImageFormat::Vhdx
        } else if ends_with(lower.as_slice(), &['.', 'v', 'd', 'i']) {
            ImageFormat::Vdi
        } else {
            ImageFormat::Unknown
        }
    }

    /// The VHD flavour for a VHD footer's disk type.
    pub fn from_vhd_disk_type(disk_type: u32) -> (r: Self)
        ensures
            r == (if disk_type == 2 {
                ImageFormat::FixedVhd
            } else if disk_type == 3 {
                ImageFormat::DynamicVhd
            } else if disk_type == 4 {
                ImageFormat::DifferencingVhd
            } else {
                ImageFormat::Vhd
            }),
    {
        match disk_type {
            2 => ImageFormat::FixedVhd,
            3 => ImageFormat::DynamicVhd,
            4 => ImageFormat::DifferencingVhd,
            _ => ImageFormat::Vhd,
        }
    }

    pub fn is_iso(self) -> (r: bool)
        ensures
            r == (self == ImageFormat::Iso),
    {
        self == ImageFormat::Iso
    }

    pub fn is_efi_executable(self) -> (r: bool)
        ensures
            r == (self == ImageFormat::EfiExecutable),
    {
        self == ImageFormat::EfiExecutable
    }

    /// WIM and ESD files are containers of Windows images.
    pub fn is_wim_container(self) -> (r: bool)
        ensures
            r == (self == ImageFormat::Wim || self == ImageFormat::Esd),
    {
        matches!(self, ImageFormat::Wim | ImageFormat::Esd)
    }

    /// Formats that boot by exposing the image as a virtual disk.
    pub fn supports_virtual_disk_boot(self) -> (r: bool)
        ensures
            r == (self == ImageFormat::Iso || self == ImageFormat::RawDisk || self == ImageFormat::FixedVhd
                || self == ImageFormat::DynamicVhd || self == ImageFormat::Vhdx || self == ImageFormat::Vdi),
    {
        matches!(self, ImageFormat::Iso | ImageFormat::RawDisk | ImageFormat::FixedVhd | ImageFormat::DynamicVhd | ImageFormat::Vhdx | ImageFormat::Vdi)
    }

    /// Formats whose virtual disk uses 512-byte sectors.
    pub fn uses_512_byte_virtual_sectors(self) -> (r: bool)
        ensures
            r == (self == ImageFormat::RawDisk || self == ImageFormat::FixedVhd || self == ImageFormat::DynamicVhd
                || self == ImageFormat::Vdi),
    {
        matches!(self, ImageFormat::RawDisk | ImageFormat::FixedVhd | ImageFormat::DynamicVhd | ImageFormat::Vdi)
    }
}

/// Operating system families recognised from file names.
#[derive(Debug, Clone, Copy, PartialEq, Eq, Structural)]
pub enum OsType {
    Windows,
    Ubuntu,
    Debian,
    Fedora,
    Arch,
    Linux,
    WinPE,
    Unknown,
}

/// The family whose keyword occurs first in the checking order in an
/// already lowercased path.
pub open spec fn os_for_name(p: Seq<char>) -> OsType {
    if contains_seq(p, seq!['w', 'i', 'n', 'd', 'o', 'w', 's']) {
        OsType::Windows
    } else if contains_seq(p, seq!['u', 'b', 'u', 'n', 't', 'u']) {
        OsType::Ubuntu
    } else if contains_seq(p, seq!['d', 'e', 'b', 'i', 'a', 'n']) {
        OsType::Debian
    } else if contains_seq(p, seq!['f', 'e', 'd', 'o', 'r', 'a']) {
        OsType::Fedora
    } else if contains_seq(p, seq!['a', 'r', 'c', 'h']) || contains_seq(p, seq!['m', 'a', 'n', 'j', 'a', 'r', 'o']) {
        OsType::Arch
    } else if contains_seq(p, seq!['w', 'i', 'n', 'p', 'e']) || contains_seq(p, seq!['p', 'e', '_']) {
        OsType::WinPE
    } else if contains_seq(p, seq!['l', 'i', 'n', 'u', 'x']) {
        OsType::Linux
    } else {
        OsType::Unknown
    }
}

impl OsType {
    /// The family a file name suggests, ignoring case.
    pub fn detect_from_path(path: &str) -> (r: Self)
        ensures
            r == os_for_name(unicode_lowercase(path@)),
    {
        let lower = to_lowercase(path);
        Self::detect_from_lowercase_name(lower.as_str())
    }

    /// The family a lowercased path suggests.
    pub fn detect_from_lowercase_name(name: &str) -> (r: Self)
        ensures
            r == os_for_name(name@),
    {
        let p = chars_of(name);
        let p = p.as_slice();
        if contains(p, &['w', 'i', 'n', 'd', 'o', 'w', 's']) {
            return OsType::Windows;
        }
        if contains(p, &['u', 'b', 'u', 'n', 't', 'u']) {
            return OsType::Ubuntu;
        }
        if contains(p, &['d', 'e', 'b', 'i', 'a', 'n']) {
            return OsType::Debian;
        }
        if contains(p, &['f', 'e', 'd', 'o', 'r', 'a']) {
            return OsType::Fedora;
        }
        if contains(p, &['a', 'r', 'c', 'h']) || contains(p, &['m', 'a', 'n', 'j', 'a', 'r', 'o']) {
            return OsType::Arch;
        }
        if contains(p, &['w', 'i', 'n', 'p', 'e']) || contains(p, &['p', 'e', '_']) {
            return OsType::WinPE;
        }
        if contains(p, &['l', 'i', 'n', 'u', 'x']) {
            return OsType::Linux;
        }
        OsType::Unknown
    }
}

/// The images found by the last scan, kept so that a second menu does not
/// scan again.
pub struct IsoCache<T> {
    entries: Vec<T>,
    timestamp: u64,
}

impl<T> IsoCache<T> {
    /// The images held.
    pub closed spec fn entries(&self) -> Seq<T> {
        self.entries@
    }

    /// When the images were saved; zero for an empty cache.
    pub closed spec fn timestamp(&self) -> u64 {
        self.timestamp
    }

    /// An empty cache.
    pub fn new() -> (r: Self)
        ensures
            r.entries() == Seq::<T>::empty(),
            r.timestamp() == 0,
    {
        IsoCache { entries: Vec::new(), timestamp: 0 }
    }

    /// The images held, or `None` when there are none.
    pub fn load(&self) -> (r: Option<&[T]>)
        ensures
            r is None <==> self.entries().len() == 0,
            r matches Some(s) ==> s@ == self.entries(),
    {
        if self.entries.len() == 0 {
            None
        } else {
            Some(self.entries.as_slice())
        }
    }

    /// Replaces the images held.
    pub fn save(&mut self, entries: Vec<T>)
        ensures
            final(self).entries() == entries@,
            final(self).timestamp() == old(self).timestamp(),
    {
        self.entries = entries;
    }

    /// Drops every image held.
    pub fn clear(&mut self)
        ensures
            final(self).entries() == Seq::<T>::empty(),
            final(self).timestamp() == 0,
    {
        self.entries.clear();
        self.timestamp = 0;
    }

    /// Whether the cache can be used: it is whenever it holds an image, of
    /// whatever age.
    pub fn is_valid(&self, max_age_seconds: u64) -> (r: bool)
        ensures
            r == (self.entries().len() > 0),
    {
        self.entries.len() > 0
    }
}

impl<T> Default for IsoCache<T> {
    fn default() -> (r: Self)
        ensures
            r.entries() == Seq::<T>::empty(),
            r.timestamp() == 0,
    {
        Self::new()
    }
}

/// Which of the marker files of an operating system a file system of the
/// image holds.
#[derive(Debug, Clone, Copy, PartialEq, Eq, Structural)]
pub struct MarkerHits {
    /// Windows setup files such as `/sources/boot.wim`.
    pub windows: bool,
    /// Linux loader files such as `/boot/grub/grub.cfg`.
    pub linux: bool,
}

/// The operating system that the marker files of an ISO show: the UDF file
/// system, when the image has one that opened, is asked first, then the
/// ISO 9660 one when it opened; Windows markers win over Linux ones.
pub open spec fn iso_os_type_hint(udf: Option<MarkerHits>, iso9660: Option<MarkerHits>) -> Option<OsType> {
    match udf {
        Some(h) if h.windows => Some(OsType::Windows),
        Some(h) if h.linux => Some(OsType::Linux),
        _ => match iso9660 {
            Some(h) if h.windows => Some(OsType::Windows),
            Some(h) if h.linux => Some(OsType::Linux),
            _ => None,
        },
    }
}

/// Decides the operating system of an ISO from the marker files found on
/// its file systems.
pub fn detect_iso_os_type(udf: Option<MarkerHits>, iso9660: Option<MarkerHits>) -> (r: Option<OsType>)
    ensures
        r == iso_os_type_hint(udf, iso9660),
{
    if let Some(h) = udf {
        if h.windows {
            return Some(OsType::Windows);
        }
        if h.linux {
            return Some(OsType::Linux);
        }
    }
    match iso9660 {
        Some(h) => {
            if h.windows {
                Some(OsType::Windows)
            } else if h.linux {
                Some(OsType::Linux)
            } else {
                None
            }
        },
        None => None,
    }
}

} // verus!
