use nextboot_boot::boot::candidates::{
    compressed_wimboot_helper_candidates, default_efi_boot_paths, generic_efi_boot_paths, ventoy_arch_cpio_candidates,
    wimboot_helper_candidates, TargetArch,
};
use nextboot_boot::boot::chain_load::{LoadOptionsBuffer, LoadOptionsError};
use nextboot_boot::boot::linux::linux_initrd_summary;
use nextboot_boot::boot::load_file::normalize_load_file_key;
use nextboot_boot::boot::util::{
    align_up, align_up_u64, div_round_up, is_child_device_path, is_isolinux_config_path, iso9660_file_extent_patch,
    iso_parent_dir, normalize_iso_path, os_type_code, parent_without_end_len, push_extent_record, push_u16,
    resolve_linux_config_path, selected_persistence_backend_index, selected_ventoy_plugin_index,
};
use nextboot_boot::boot::vdi_parent::{is_vdi_parent_candidate_name, join_path, parent_dir};
use nextboot_boot::boot::vhd::{parse_dynamic_footer, parse_dynamic_header};
use nextboot_boot::boot::vhdx_backing::bitmap_range_all_present;
use nextboot_boot::boot::os_param::{
    build_image_regions, build_os_param_payload, ventoy_error_status, ventoy_source_extents, virtual_device_type_code,
    OsParamDevice, OsParamImage, VirtualDeviceType,
};
use nextboot_boot::boot::virtual_device::{
    conf_replace_start_offset, grown_iso_size, iso9660_replacement_overlay, pad_replacement, place_conf_replacement,
    ConfReplaceError,
};
use nextboot_boot::boot::wimboot::{wimboot_virtual_files, WimbootIncludes};
use nextboot_boot::boot::{BootError, BootMode, BootOptions, MemoryMapInfo};
use nextboot_boot::scanner::model::{IsoExtent, OsType};
use nextboot_boot::ventoy::{VentoyExtent, VentoyParamError};

#[test]
fn boot_options_default_to_virtual_device() {
    assert_eq!(BootMode::default(), BootMode::VirtualDevice);
    let options = BootOptions::default();
    assert_eq!(options.mode, BootMode::VirtualDevice);
    assert!(options.kernel_args.is_empty());
    assert!(!options.debug);
    assert_eq!(options.timeout, None);
    let region = MemoryMapInfo { start: 0x1000, size: 0x2000, memory_type: 7 };
    assert_eq!(region.size, 0x2000);
}

#[test]
fn plugin_selection_is_one_based() {
    assert_eq!(selected_ventoy_plugin_index(None, 3), None);
    assert_eq!(selected_ventoy_plugin_index(Some(0), 3), None);
    assert_eq!(selected_ventoy_plugin_index(Some(1), 3), Some(0));
    assert_eq!(selected_ventoy_plugin_index(Some(3), 3), Some(2));
    assert_eq!(selected_ventoy_plugin_index(Some(4), 3), None);
    assert_eq!(selected_persistence_backend_index(None, 1), Some(0));
    assert_eq!(selected_persistence_backend_index(None, 2), None);
    assert_eq!(selected_persistence_backend_index(Some(0), 1), None);
    assert_eq!(selected_persistence_backend_index(Some(2), 2), Some(1));
}

#[test]
fn extent_patch_is_both_endian() {
    assert_eq!(
        iso9660_file_extent_patch(0x0102_0304, 0x0a0b_0c0d),
        vec![4, 3, 2, 1, 1, 2, 3, 4, 0x0d, 0x0c, 0x0b, 0x0a, 0x0a, 0x0b, 0x0c, 0x0d]
    );
}

#[test]
fn iso_paths_are_canonical() {
    assert_eq!(normalize_iso_path("  \\boot\\\\grub//grub.cfg "), "/boot/grub/grub.cfg");
    assert_eq!(normalize_iso_path(""), "/");
    assert_eq!(normalize_iso_path("///"), "/");
    assert_eq!(normalize_iso_path("casper/vmlinuz"), "/casper/vmlinuz");
    assert_eq!(normalize_load_file_key("\\EFI\\Boot\\BOOTx64.EFI"), "/efi/boot/bootx64.efi");
}

#[test]
fn isolinux_configs_are_recognised() {
    assert!(is_isolinux_config_path("/ISOLINUX/txt.cfg"));
    assert!(is_isolinux_config_path("/boot/syslinux/menu.cfg"));
    assert!(is_isolinux_config_path("/isolinux.cfg"));
    assert!(!is_isolinux_config_path("/boot/grub/grub.cfg"));
}

#[test]
fn parent_dirs_and_relative_configs_resolve() {
    assert_eq!(iso_parent_dir("/boot/grub/grub.cfg"), "/boot/grub");
    assert_eq!(iso_parent_dir("/grub.cfg"), "/");
    assert_eq!(iso_parent_dir(""), "/");
    assert_eq!(resolve_linux_config_path("/boot/grub", "loopback.cfg"), "/boot/grub/loopback.cfg");
    assert_eq!(resolve_linux_config_path("/boot/grub", " /isolinux/txt.cfg"), "/isolinux/txt.cfg");
    assert_eq!(resolve_linux_config_path("/boot/grub", "\\efi\\x.cfg"), "/efi/x.cfg");
    assert_eq!(resolve_linux_config_path("/", "menu.cfg"), "/menu.cfg");
}

fn node(node_type: u8, subtype: u8, payload: &[u8]) -> Vec<u8> {
    let len = (payload.len() + 4) as u16;
    let mut n = vec![node_type, subtype];
    n.extend_from_slice(&len.to_le_bytes());
    n.extend_from_slice(payload);
    n
}

#[test]
fn child_device_paths_share_the_parent_nodes() {
    let pci = node(1, 1, &[0, 0]);
    let end = node(0x7f, 0xff, &[]);
    let mut parent = pci.clone();
    parent.extend_from_slice(&end);
    assert_eq!(parent_without_end_len(&parent), Some(6));
    let mut child = pci.clone();
    child.extend_from_slice(&node(4, 1, &[9; 38]));
    child.extend_from_slice(&end);
    assert!(is_child_device_path(&parent, &child));
    let other = node(1, 1, &[0, 1]);
    assert!(!is_child_device_path(&parent, &other));
    assert_eq!(parent_without_end_len(&[1, 1, 2, 0]), None);
    assert_eq!(parent_without_end_len(&[1, 1]), None);
    // Without an end node the whole parent must prefix the child.
    assert!(is_child_device_path(&pci, &child));
}

#[test]
fn alignment_and_rounding() {
    assert_eq!(align_up(0, 4096), Some(0));
    assert_eq!(align_up(1, 4096), Some(4096));
    assert_eq!(align_up(4096, 4096), Some(4096));
    assert_eq!(align_up(4097, 8), Some(4104));
    assert_eq!(align_up(usize::MAX, 2), None);
    assert_eq!(div_round_up(10, 4), Some(3));
    assert_eq!(div_round_up(10, 0), None);
    assert_eq!(div_round_up(u64::MAX, 2), None);
    assert_eq!(align_up_u64(10, 3), Some(12));
    assert_eq!(align_up_u64(12, 3), Some(12));
    assert_eq!(align_up_u64(12, 0), None);
    assert_eq!(align_up_u64(u64::MAX, 2), None);
}

#[test]
fn os_codes_and_records() {
    assert_eq!(os_type_code(OsType::Unknown), 0);
    assert_eq!(os_type_code(OsType::Windows), 1);
    assert_eq!(os_type_code(OsType::WinPE), 2);
    assert_eq!(os_type_code(OsType::Linux), 10);
    assert_eq!(os_type_code(OsType::Arch), 14);
    let mut data = Vec::new();
    push_u16(&mut data, 0x0102);
    push_extent_record(&mut data, 1, 2, 3);
    assert_eq!(data.len(), 26);
    assert_eq!(&data[..2], &[2, 1]);
    assert_eq!(&data[2..10], &1u64.to_le_bytes());
    assert_eq!(&data[10..18], &2u64.to_le_bytes());
    assert_eq!(&data[18..26], &3u64.to_le_bytes());
}

#[test]
fn initrd_summary_joins_with_commas() {
    assert_eq!(linux_initrd_summary(&[]), "");
    assert_eq!(linux_initrd_summary(&["/a".to_string()]), "/a");
    assert_eq!(linux_initrd_summary(&["/a".to_string(), "".to_string(), "/b".to_string()]), "/a,,/b");
}

#[test]
fn load_options_are_nul_terminated_utf16() {
    let options = LoadOptionsBuffer::new("a\u{1F600}").expect("options");
    assert_eq!(options.units(), &[0x61, 0xd83d, 0xde00, 0]);
    assert_eq!(options.size_bytes(), 8);
    assert_eq!(LoadOptionsBuffer::new("a\0b").err(), Some(LoadOptionsError::InvalidParameter));
    assert_eq!(LoadOptionsBuffer::new("").expect("empty").size_bytes(), 2);
}

fn vhd_footer(disk_type: u32, data_offset: u64) -> Vec<u8> {
    let mut f = vec![0u8; 512];
    f[..8].copy_from_slice(b"conectix");
    f[16..24].copy_from_slice(&data_offset.to_be_bytes());
    f[48..56].copy_from_slice(&(1u64 << 30).to_be_bytes());
    f[60..64].copy_from_slice(&disk_type.to_be_bytes());
    f
}

#[test]
fn dynamic_vhd_footer_and_header() {
    let footer = parse_dynamic_footer(&vhd_footer(3, 512)).expect("footer");
    assert_eq!(footer.data_offset, 512);
    assert_eq!(footer.virtual_size, 1 << 30);
    assert_eq!(parse_dynamic_footer(&vhd_footer(2, 512)), None);
    assert_eq!(parse_dynamic_footer(&vhd_footer(3, u64::MAX)), None);
    assert_eq!(parse_dynamic_footer(&vhd_footer(3, 512)[..511]), None);

    let mut h = vec![0u8; 1024];
    h[..8].copy_from_slice(b"cxsparse");
    h[16..24].copy_from_slice(&1536u64.to_be_bytes());
    h[24..28].copy_from_slice(&0x0001_0000u32.to_be_bytes());
    h[28..32].copy_from_slice(&512u32.to_be_bytes());
    h[32..36].copy_from_slice(&(2u32 << 20).to_be_bytes());
    let header = parse_dynamic_header(&h).expect("header");
    assert_eq!(header.table_offset, 1536);
    assert_eq!(header.header_version, 0x0001_0000);
    assert_eq!(header.max_table_entries, 512);
    assert_eq!(header.block_size, 2 << 20);
    let mut no_blocks = h.clone();
    no_blocks[28..32].copy_from_slice(&0u32.to_be_bytes());
    assert_eq!(parse_dynamic_header(&no_blocks), None);
    let mut wrong = h.clone();
    wrong[0] = b'X';
    assert_eq!(parse_dynamic_header(&wrong), None);
}

#[test]
fn vdi_parent_paths() {
    assert_eq!(parent_dir("/vm/disk.vdi"), "/vm");
    assert_eq!(parent_dir("/disk.vdi"), "/");
    assert_eq!(parent_dir("/vm/sub/"), "/vm");
    assert_eq!(parent_dir("disk.vdi"), "/");
    assert_eq!(join_path("/", "a.vdi"), "/a.vdi");
    assert_eq!(join_path("", "a.vdi"), "/a.vdi");
    assert_eq!(join_path("/vm//", "a.vdi"), "/vm/a.vdi");
    assert!(is_vdi_parent_candidate_name("Base.VDI"));
    assert!(is_vdi_parent_candidate_name("x.vdibase"));
    assert!(!is_vdi_parent_candidate_name("x.vhd"));
}

#[test]
fn sector_bitmap_ranges() {
    let bitmap = [0b1111_0000u8, 0xff];
    assert!(bitmap_range_all_present(&bitmap, 4, 12));
    assert!(!bitmap_range_all_present(&bitmap, 3, 2));
    assert!(!bitmap_range_all_present(&bitmap, 15, 2));
    assert!(bitmap_range_all_present(&bitmap, 100, 0));
}

#[test]
fn loader_candidates_follow_the_architecture() {
    assert_eq!(default_efi_boot_paths(TargetArch::X86_64)[0], "\\EFI\\BOOT\\BOOTX64.EFI");
    assert_eq!(default_efi_boot_paths(TargetArch::Aarch64)[0], "\\EFI\\BOOT\\BOOTAA64.EFI");
    assert_eq!(default_efi_boot_paths(TargetArch::Arm)[0], "\\EFI\\BOOT\\BOOTARM.EFI");
    assert_eq!(default_efi_boot_paths(TargetArch::X86).len(), 4);
    assert_eq!(generic_efi_boot_paths(TargetArch::X86)[0], "/efi/boot/bootia32.efi");
    assert_eq!(wimboot_helper_candidates(TargetArch::X86_64)[0], "/ventoy/wimboot.x86_64");
    assert!(wimboot_helper_candidates(TargetArch::Aarch64).is_empty());
    assert_eq!(compressed_wimboot_helper_candidates(TargetArch::X86), vec!["/ventoy/wimboot.i386.efi.xz"]);
    assert_eq!(ventoy_arch_cpio_candidates(TargetArch::Aarch64), vec!["/ventoy/ventoy_arm64.cpio"]);
    assert_eq!(ventoy_arch_cpio_candidates(TargetArch::X86_64), vec!["/ventoy/ventoy_x86.cpio"]);
}

#[test]
fn conf_replace_files_are_appended_in_whole_sectors() {
    let start = conf_replace_start_offset(5000).expect("start");
    assert_eq!(start, 6144);
    let placed = place_conf_replacement(start, 100).expect("ok").expect("placed");
    assert_eq!(placed.data_offset, 6144);
    assert_eq!(placed.sector, 3);
    assert_eq!(placed.size, 100);
    assert_eq!(placed.padded_len, 2048);
    assert_eq!(placed.next_append_offset, 8192);
    assert_eq!(place_conf_replacement(start, 1024 * 1024 + 1), Ok(None));
    assert_eq!(place_conf_replacement(u64::MAX - 100, 10), Err(ConfReplaceError::OutOfResources));
    assert_eq!(conf_replace_start_offset(u64::MAX), Err(ConfReplaceError::OutOfResources));
    let (offset, patch) = iso9660_replacement_overlay(1000, placed).expect("overlay");
    assert_eq!(offset, 1002);
    assert_eq!(patch, iso9660_file_extent_patch(3, 100));
    let padded = pad_replacement(vec![1, 2, 3], 8);
    assert_eq!(padded, vec![1, 2, 3, 0, 0, 0, 0, 0]);
    assert_eq!(pad_replacement(vec![1, 2, 3], 2), vec![1, 2, 3]);
    assert_eq!(grown_iso_size(5000, 8192, true), 8192);
    assert_eq!(grown_iso_size(5000, 8192, false), 5000);
    assert_eq!(grown_iso_size(9000, 8192, true), 9000);
}

#[test]
fn wimboot_sees_the_files_that_were_found() {
    let none = WimbootIncludes { bootmgfw: false, winpeshl: false, bcd: false, boot_sdi: false };
    assert_eq!(wimboot_virtual_files(none), vec![("boot.wim", "nb-boot-wim"), ("vtoy_wimboot", "nb-wimboot")]);
    let all = WimbootIncludes { bootmgfw: true, winpeshl: true, bcd: true, boot_sdi: true };
    assert_eq!(
        wimboot_virtual_files(all),
        vec![
            ("boot.wim", "nb-boot-wim"),
            ("vtoy_wimboot", "nb-wimboot"),
            ("bootmgfw.efi", "nb-bootmgfw"),
            ("winpeshl.exe", "nb-winpeshl"),
            ("bcd", "nb-bcd"),
            ("boot.sdi", "nb-boot-sdi"),
        ]
    );
    let some = WimbootIncludes { bootmgfw: false, winpeshl: false, bcd: true, boot_sdi: false };
    assert_eq!(wimboot_virtual_files(some)[2], ("bcd", "nb-bcd"));
}

fn os_image(block_size: u32) -> OsParamImage {
    OsParamImage {
        volume_index: 3,
        os_type: OsType::Windows,
        virtual_size: 10_000,
        start_lba: 77,
        block_size,
        has_el_torito: true,
    }
}

fn os_device() -> OsParamDevice {
    OsParamDevice { device_type: VirtualDeviceType::DvdRom, block_size: 2048, physical_block_size: 512 }
}

fn le32(data: &[u8], at: usize) -> u32 {
    u32::from_le_bytes([data[at], data[at + 1], data[at + 2], data[at + 3]])
}

#[test]
fn nextboot_os_param_layout() {
    let extents = [
        IsoExtent { virtual_block_start: 0, physical_lba: 100, block_count: 8 },
        IsoExtent { virtual_block_start: 8, physical_lba: 300, block_count: 2 },
    ];
    let data = build_os_param_payload("/iso/a.iso", os_image(512), &extents, os_device()).expect("payload");
    assert_eq!(data.len(), 96 + 48);
    assert_eq!(&data[..8], b"NBOSPARM");
    assert_eq!(&data[8..16], &[1, 0, 80, 0, 24, 0, 2, 0]);
    assert_eq!(le32(&data, 16), 144);
    assert_eq!(le32(&data, 20), 3);
    assert_eq!(le32(&data, 24), 1);
    assert_eq!(le32(&data, 28), 1);
    assert_eq!(&data[32..40], &10_000u64.to_le_bytes());
    assert_eq!(&data[40..48], &77u64.to_le_bytes());
    assert_eq!(le32(&data, 48), 512);
    assert_eq!(le32(&data, 52), 2048);
    assert_eq!(le32(&data, 56), 512);
    assert_eq!(le32(&data, 60), 2);
    assert_eq!(le32(&data, 64), 80);
    assert_eq!(le32(&data, 68), 10);
    assert_eq!(le32(&data, 72), 96);
    assert_eq!(le32(&data, 76), 48);
    assert_eq!(&data[80..90], b"/iso/a.iso");
    assert_eq!(&data[90..96], &[0; 6]);
    assert_eq!(&data[96..104], &0u64.to_le_bytes());
    assert_eq!(&data[104..112], &100u64.to_le_bytes());
    assert_eq!(&data[112..120], &8u64.to_le_bytes());
    assert_eq!(&data[120..128], &8u64.to_le_bytes());
}

#[test]
fn nextboot_os_param_synthetic_extent_and_errors() {
    let data = build_os_param_payload("/a.img", os_image(512), &[], os_device()).expect("payload");
    assert_eq!(data.len(), 88 + 24);
    assert_eq!(&data[14..16], &[3, 0]);
    assert_eq!(&data[88..96], &0u64.to_le_bytes());
    assert_eq!(&data[96..104], &77u64.to_le_bytes());
    assert_eq!(&data[104..112], &20u64.to_le_bytes());
    assert_eq!(build_os_param_payload("/a.img", os_image(0), &[], os_device()), Err(BootError::InvalidParameter));
    let far = OsParamImage { volume_index: usize::MAX, ..os_image(512) };
    assert_eq!(build_os_param_payload("/a.img", far, &[], os_device()), Err(BootError::OutOfResources));
    assert_eq!(virtual_device_type_code(VirtualDeviceType::HardDisk), 2);
    assert_eq!(virtual_device_type_code(VirtualDeviceType::UsbMassStorage), 3);
}

#[test]
fn ventoy_source_extents_are_disk_relative() {
    let extents = [IsoExtent { virtual_block_start: 0, physical_lba: 100, block_count: 8 }];
    let moved = ventoy_source_extents(&extents, 4096, 512, 100, 2048).expect("extents");
    assert_eq!(moved, vec![VentoyExtent { virtual_block_start: 0, physical_lba: 2148, block_count: 8 }]);
    let synthetic = ventoy_source_extents(&[], 1000, 512, 64, 2048).expect("extents");
    assert_eq!(synthetic, vec![VentoyExtent { virtual_block_start: 0, physical_lba: 2112, block_count: 2 }]);
    assert_eq!(ventoy_source_extents(&[], 1000, 0, 64, 2048), Err(BootError::InvalidParameter));
    assert_eq!(ventoy_source_extents(&extents, 4096, 512, 100, u64::MAX), Err(BootError::OutOfResources));
}

#[test]
fn image_regions_fall_back_to_the_source_block_size() {
    let aligned = [VentoyExtent { virtual_block_start: 0, physical_lba: 100, block_count: 16 }];
    let (image_sector, disk_sector, regions) = build_image_regions(&aligned, 512, 512, true, 2048).expect("regions");
    assert_eq!((image_sector, disk_sector), (2048, 512));
    assert_eq!(regions.len(), 1);
    let odd = [VentoyExtent { virtual_block_start: 1, physical_lba: 100, block_count: 3 }];
    let (image_sector, _, _) = build_image_regions(&odd, 512, 512, true, 2048).expect("fallback");
    assert_eq!(image_sector, 512);
    assert_eq!(build_image_regions(&aligned, 512, 4096, true, 2048), Err(BootError::Unsupported));
    assert_eq!(ventoy_error_status(VentoyParamError::PathTooLong), BootError::InvalidParameter);
    assert_eq!(ventoy_error_status(VentoyParamError::OutputTooLarge), BootError::OutOfResources);
}
