use nextboot_boot::scanner::paths::{
    has_supported_extension, is_default_uefi_bootloader_path, is_dot_underscore_file, is_hidden_tree,
    is_ventoy_plugin_tree_path, join_display_path, normalize_scan_path, to_uefi_relative_path,
};

#[test]
fn treats_ventoy_plugin_directory_as_non_image_tree() {
    assert!(is_ventoy_plugin_tree_path("/ventoy"));
    assert!(is_ventoy_plugin_tree_path("/Ventoy/dud/dd.iso"));
    assert!(!is_ventoy_plugin_tree_path("/ISO/ventoy-linux.iso"));
    assert!(!is_ventoy_plugin_tree_path("/persistence/ventoy.dat"));
}

#[test]
fn treats_default_uefi_bootloader_paths_as_non_images() {
    assert!(is_default_uefi_bootloader_path("/EFI/BOOT/BOOTX64.EFI"));
    assert!(is_default_uefi_bootloader_path("/efi/boot/bootaa64.efi"));
    assert!(!is_default_uefi_bootloader_path("/ISO/tools.efi"));
    assert!(!is_default_uefi_bootloader_path("/EFI/tools.efi"));
}

#[test]
fn bootloader_paths_need_exactly_three_parts() {
    assert!(!is_default_uefi_bootloader_path("/EFI/BOOT/x/BOOTX64.EFI"));
    assert!(is_default_uefi_bootloader_path("EFI/Boot/bootia32.efi/"));
    assert!(!is_default_uefi_bootloader_path("/EFI//BOOTARM.EFI"));
    assert!(!is_default_uefi_bootloader_path(""));
}

#[test]
fn scan_paths_are_rooted_without_outer_slashes() {
    assert_eq!(normalize_scan_path(""), "/");
    assert_eq!(normalize_scan_path(" . "), "/");
    assert_eq!(normalize_scan_path("/"), "/");
    assert_eq!(normalize_scan_path(" /ISO/ "), "/ISO");
    assert_eq!(normalize_scan_path("images//"), "/images");
}

#[test]
fn uefi_relative_paths_use_backslashes() {
    assert_eq!(to_uefi_relative_path("/ISO/linux/a.iso"), "ISO\\linux\\a.iso");
    assert_eq!(to_uefi_relative_path("//a//b/"), "a\\b");
    assert_eq!(to_uefi_relative_path("/"), "");
}

#[test]
fn display_paths_join_parent_and_name() {
    assert_eq!(join_display_path("/", "a.iso"), "/a.iso");
    assert_eq!(join_display_path("", "a.iso"), "/a.iso");
    assert_eq!(join_display_path("/ISO//", "a.iso"), "/ISO/a.iso");
    assert_eq!(join_display_path("/ISO", "b.iso"), "/ISO/b.iso");
}

#[test]
fn extensions_match_ignoring_case() {
    assert!(has_supported_extension("WIN11.ISO", &[".iso", ".wim"]));
    assert!(!has_supported_extension("notes.txt", &[".iso", ".wim"]));
    assert!(!has_supported_extension("x.iso", &[]));
}

#[test]
fn hidden_trees_and_companion_files() {
    assert!(is_hidden_tree("$RECYCLE.BIN"));
    assert!(is_hidden_tree("System Volume Information"));
    assert!(!is_hidden_tree("$recycle.bin"));
    assert!(is_dot_underscore_file("._a.iso"));
    assert!(!is_dot_underscore_file("a._iso"));
}
