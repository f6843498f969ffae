use nextboot_boot::scanner::model::{ImageFormat, IsoBootInfo, OsType, PartitionRange, WimBootInfo, WimCompression};

#[test]
fn image_format_follows_the_extension() {
    assert_eq!(ImageFormat::detect_from_path("/ISO/Win11.ISO"), ImageFormat::Iso);
    assert_eq!(ImageFormat::detect_from_path("boot.wim"), ImageFormat::Wim);
    assert_eq!(ImageFormat::detect_from_path("install.ESD"), ImageFormat::Esd);
    assert_eq!(ImageFormat::detect_from_path("shell.efi"), ImageFormat::EfiExecutable);
    assert_eq!(ImageFormat::detect_from_path("disk.img"), ImageFormat::RawDisk);
    assert_eq!(ImageFormat::detect_from_path("disk.vhd"), ImageFormat::Vhd);
    assert_eq!(ImageFormat::detect_from_path("disk.VHDX"), ImageFormat::Vhdx);
    assert_eq!(ImageFormat::detect_from_path("disk.vdi"), ImageFormat::Vdi);
    assert_eq!(ImageFormat::detect_from_path("notes.txt"), ImageFormat::Unknown);
    assert_eq!(ImageFormat::detect_from_path("iso"), ImageFormat::Unknown);
}

#[test]
fn image_format_predicates() {
    assert_eq!(ImageFormat::from_vhd_disk_type(2), ImageFormat::FixedVhd);
    assert_eq!(ImageFormat::from_vhd_disk_type(3), ImageFormat::DynamicVhd);
    assert_eq!(ImageFormat::from_vhd_disk_type(4), ImageFormat::DifferencingVhd);
    assert_eq!(ImageFormat::from_vhd_disk_type(7), ImageFormat::Vhd);
    assert!(ImageFormat::Iso.is_iso());
    assert!(ImageFormat::EfiExecutable.is_efi_executable());
    assert!(ImageFormat::Esd.is_wim_container() && ImageFormat::Wim.is_wim_container());
    assert!(!ImageFormat::Vhd.supports_virtual_disk_boot());
    assert!(ImageFormat::Vhdx.supports_virtual_disk_boot());
    assert!(ImageFormat::Vdi.uses_512_byte_virtual_sectors());
    assert!(!ImageFormat::Iso.uses_512_byte_virtual_sectors());
}

#[test]
fn os_type_follows_keywords_in_order() {
    assert_eq!(OsType::detect_from_path("/ISO/Windows11.iso"), OsType::Windows);
    assert_eq!(OsType::detect_from_path("ubuntu-24.04.iso"), OsType::Ubuntu);
    assert_eq!(OsType::detect_from_path("Debian-12.iso"), OsType::Debian);
    assert_eq!(OsType::detect_from_path("Fedora.iso"), OsType::Fedora);
    assert_eq!(OsType::detect_from_path("manjaro.iso"), OsType::Arch);
    assert_eq!(OsType::detect_from_path("archlinux.iso"), OsType::Arch);
    assert_eq!(OsType::detect_from_path("WinPE_x64.iso"), OsType::WinPE);
    assert_eq!(OsType::detect_from_path("tiny-linux.iso"), OsType::Linux);
    assert_eq!(OsType::detect_from_path("memtest.iso"), OsType::Unknown);
}

#[test]
fn boot_metadata_predicates() {
    let boot = IsoBootInfo { catalog_lba: 1, boot_entry: 0, platform_id: 0xef, image_lba: 2, image_block_count: 3, sector_count: 4 };
    assert!(boot.is_efi());
    assert!(!IsoBootInfo { platform_id: 0, ..boot }.is_efi());
    let wim = WimBootInfo {
        header_len: 208,
        version: 0x10d00,
        flags: 0,
        compression: WimCompression::Lzx,
        chunk_len: 32768,
        image_count: 1,
        boot_index: 1,
        boot_index_in_range: true,
        wimboot_supported: true,
    };
    assert!(wim.is_bootable());
    assert!(!WimBootInfo { boot_index: 0, ..wim }.is_bootable());
    let range = PartitionRange { start_lba: 2048, block_count: 100 };
    assert!(range.matches(2048, 100));
    assert!(!range.matches(2048, 101));
}

#[test]
fn image_formats_have_display_names() {
    assert_eq!(ImageFormat::Iso.display_name(), "ISO");
    assert_eq!(ImageFormat::EfiExecutable.display_name(), "EFI");
    assert_eq!(ImageFormat::RawDisk.display_name(), "RAW");
    assert_eq!(ImageFormat::DifferencingVhd.display_name(), "Differencing VHD");
    assert_eq!(ImageFormat::Vhdx.display_name(), "VHDX");
    assert_eq!(ImageFormat::Unknown.display_name(), "Unknown");
}
