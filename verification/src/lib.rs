//! Verified core of the NextBoot boot manager: image-format parsers, the
//! LZX decompressor used for WIM resources, Ventoy-compatible parameter
//! builders and the `ventoy.json` plugin reader.

pub mod bytes;
pub mod lzx;
pub mod ventoy;
pub mod vdi;
pub mod source_disk;
pub mod text;
pub mod scanner;
pub mod ventoy_config;
pub mod media_grow;
pub mod boot;
pub mod ui;
pub mod firmware;
pub mod main_flow;
