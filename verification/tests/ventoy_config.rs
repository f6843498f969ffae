use nextboot_boot::ventoy_config::{normalize_config_path, path_eq, VentoyConfig, VentoyConfigError, VentoyImageListMode};

#[test]
fn parses_core_ventoy_plugins() {
    let json = br#"{
            "control": [
                { "VTOY_FILE_FLT_WIM": "1" },
                { "VTOY_DEFAULT_SEARCH_ROOT": "/ISO" }
            ],
            "menu_alias": [
                { "image": "/ISO/win11.iso", "alias": "Windows 11" }
            ],
            "image_blacklist": ["/ISO/old.iso"]
        }"#;

    let config = VentoyConfig::parse(json).expect("config");

    assert!(config.filters.wim);
    assert_eq!(config.default_search_root.as_deref(), Some("/ISO"));
    assert_eq!(config.image_list_mode, VentoyImageListMode::Deny);
    assert!(!config.allows_image_path("/iso/old.iso"));
    assert!(config.allows_image_path("/iso/win11.iso"));
    assert_eq!(config.menu_alias_for("/iso/WIN11.ISO"), Some("Windows 11"));
    assert!(!config.supports_image_name("boot.wim"));
}

#[test]
fn parses_image_whitelist_and_escaped_alias() {
    let json = br#"{
            "menu_alias": [
                { "image": "\\ISO\\linux.iso", "alias": "Linux \u0031" }
            ],
            "image_list": ["/ISO/linux.iso"]
        }"#;

    let config = VentoyConfig::parse(json).expect("config");

    assert_eq!(config.image_list_mode, VentoyImageListMode::Allow);
    assert!(config.allows_image_path("/iso/linux.iso"));
    assert!(!config.allows_image_path("/iso/other.iso"));
    assert_eq!(config.menu_alias_for("/ISO/linux.iso"), Some("Linux 1"));
}

#[test]
fn preserves_utf8_menu_alias() {
    let json = "{\"menu_alias\":[{\"image\":\"/ISO/tools.iso\",\"alias\":\"\u{5de5}\u{5177}\u{7bb1}\"}]}";

    let config = VentoyConfig::parse(json.as_bytes()).expect("config");

    assert_eq!(config.menu_alias_for("/iso/tools.iso"), Some("\u{5de5}\u{5177}\u{7bb1}"));
}

#[test]
fn rejects_trailing_json_garbage() {
    let err = VentoyConfig::parse(br#"{} trailing"#).expect_err("invalid json");

    assert_eq!(err, VentoyConfigError::InvalidJson);
}

#[test]
fn config_rejects_oversized_and_non_utf8_files() {
    let big = vec![b' '; 256 * 1024 + 1];
    assert_eq!(VentoyConfig::parse(&big).unwrap_err(), VentoyConfigError::FileTooLarge);
    assert_eq!(VentoyConfig::parse(&[b'{', 0xff, b'}']).unwrap_err(), VentoyConfigError::InvalidJson);
}

#[test]
fn config_skips_unknown_plugins_of_every_shape() {
    let json = br#" { "theme": {"file": "/a", "list": [1, true, null, {"x": []}]},
        "auto_install": [ "a", "b" ], "count": 12 , "control": [] } "#;
    let config = VentoyConfig::parse(json).expect("config");
    assert_eq!(config.image_list_mode, VentoyImageListMode::Off);
    assert!(config.menu_aliases.is_empty());
    assert!(config.allows_image_path("/anything.iso"));
}

#[test]
fn config_rejects_bad_escapes_and_control_characters() {
    assert_eq!(VentoyConfig::parse(br#"{"a": "\q"}"#).unwrap_err(), VentoyConfigError::InvalidJson);
    assert_eq!(VentoyConfig::parse(b"{\"a\": \"x\ny\"}").unwrap_err(), VentoyConfigError::InvalidJson);
    assert_eq!(VentoyConfig::parse(br#"{"a": "\ud800"}"#).unwrap_err(), VentoyConfigError::InvalidJson);
    assert_eq!(VentoyConfig::parse(br#"{"a": "\u00e9"}"#).is_ok(), true);
    assert_eq!(VentoyConfig::parse(br#"{"a": 1"#).unwrap_err(), VentoyConfigError::InvalidJson);
}

#[test]
fn config_alias_needs_image_and_alias() {
    let json = br#"{"menu_alias": [{"image": "/a.iso"}, {"alias": "B"}, {"image": "/c.iso", "alias": "C", "x": 1}]}"#;
    let config = VentoyConfig::parse(json).expect("config");
    assert_eq!(config.menu_aliases.len(), 1);
    assert_eq!(config.menu_alias_for("/C.ISO"), Some("C"));
    assert_eq!(config.menu_alias_for("/a.iso"), None);
}

#[test]
fn config_filters_hide_their_image_kinds() {
    let json = br#"{"control": [{"VTOY_FILE_FLT_ISO": "1", "VTOY_FILE_FLT_VHD": "1", "VTOY_FILE_FLT_EFI": "0"}]}"#;
    let config = VentoyConfig::parse(json).expect("config");
    assert!(!config.supports_image_name("A.ISO"));
    assert!(!config.supports_image_name("disk.vhdx"));
    assert!(!config.supports_image_name("disk.vdi"));
    assert!(config.supports_image_name("tool.efi"));
    assert!(config.supports_image_name("x.img"));
    assert!(config.supports_image_name("x.vtoy"));
    assert!(config.supports_image_name("install.esd"));
    assert!(!config.supports_image_name("notes.txt"));
}

#[test]
fn config_search_roots_prefer_the_configured_root() {
    let json = br#"{"control": [{"VTOY_DEFAULT_SEARCH_ROOT": " images\\iso "}]}"#;
    let config = VentoyConfig::parse(json).expect("config");
    assert_eq!(config.search_roots(&["/a", "/b"]), vec!["/images/iso".to_string()]);

    let plain = VentoyConfig::parse(b"{}").expect("config");
    assert_eq!(plain.search_roots(&["/a", "/b"]), vec!["/a".to_string(), "/b".to_string()]);
}

#[test]
fn config_paths_compare_ignoring_case_and_slashes() {
    assert!(path_eq("\\ISO\\Linux.iso", " /iso/linux.ISO"));
    assert!(!path_eq("/iso/a.iso", "/iso/b.iso"));
    assert_eq!(normalize_config_path("  "), "");
    assert_eq!(normalize_config_path("iso\\x"), "/iso/x");
    assert_eq!(normalize_config_path("\\iso"), "/iso");
}
