//! What a volume scan does with each directory entry it reads.

use super::model::{format_for_name, ImageFormat};
use super::paths::{
    default_uefi_bootloader, display_path, ends_with_any, has_supported_extension, hidden_tree, is_default_uefi_bootloader_path,
    is_dot_underscore_file, is_hidden_tree, is_ventoy_plugin_tree_path, join_display_path, ventoy_plugin_tree,
};
use crate::text::{chars_equal, chars_of, starts_with_seq, unicode_lowercase};
use crate::ventoy_config::{name_supported, path_allowed, VentoyConfig};
use vstd::prelude::*;

verus! {

/// What becomes of a directory entry.
#[derive(Debug, Clone, Copy, PartialEq, Eq, Structural)]
pub enum EntryAction {
    /// Passed over.
    Skip,
    /// A directory to search.
    Descend,
    /// A Ventoy link file to resolve.
    Link,
    /// An image of the given format.
    Image(ImageFormat),
}

/// What a scan facing a directory entry knows of it.
#[derive(Debug, Clone, Copy, PartialEq, Eq, Structural)]
pub struct EntryKind {
    pub is_dir: bool,
    /// The entry carries the hidden or system attribute.
    pub hidden_or_system: bool,
    /// The name is that of a Ventoy link file.
    pub is_link_name: bool,
}

/// The search settings in force.
#[derive(Debug, Clone, Copy, PartialEq, Eq, Structural)]
pub struct SearchLimits {
    pub depth: usize,
    pub max_search_level: Option<usize>,
    /// Files whose names start with `._` are passed over.
    pub filter_dot_underscore: bool,
}

/// The rules of a scan: `.`, `..` and empty names are passed over;
/// directories are searched unless the depth limit is reached, they are
/// hidden trees or they are the Ventoy plugin tree; hidden or system files,
/// `._` files when filtered, and the firmware's own loaders are passed over;
/// link files and files with a supported extension count when the
/// configuration admits their name and path.
pub open spec fn entry_action(
    parent: Seq<char>,
    name: Seq<char>,
    kind: EntryKind,
    limits: SearchLimits,
    cfg: VentoyConfig,
    extensions: Seq<&str>,
) -> EntryAction {
    let full = display_path(parent, name);
    let admitted = name_supported(cfg.filters, name) && path_allowed(cfg@, full);
    if name.len() == 0 || name == seq!['.'] || name == seq!['.', '.'] {
        EntryAction::Skip
    } else if kind.is_dir {
        if (limits.max_search_level matches Some(m) && limits.depth >= m) || hidden_tree(name) || ventoy_plugin_tree(
            full,
        ) {
            EntryAction::Skip
        } else {
            EntryAction::Descend
        }
    } else if kind.hidden_or_system || (limits.filter_dot_underscore && starts_with_seq(name, seq!['.', '_']))
        || default_uefi_bootloader(full) {
        EntryAction::Skip
    } else if kind.is_link_name {
        if admitted {
            EntryAction::Link
        } else {
            EntryAction::Skip
        }
    } else if ends_with_any(unicode_lowercase(name), extensions) && admitted {
        EntryAction::Image(format_for_name(unicode_lowercase(full)))
    } else {
        EntryAction::Skip
    }
}

/// Decides what to do with entry `name` of the directory shown as `parent`,
/// and gives the entry's path.
pub fn classify_entry(
    parent: &str,
    name: &str,
    kind: EntryKind,
    limits: SearchLimits,
    config: &VentoyConfig,
    extensions: &[&str],
) -> (r: (EntryAction, String))
    ensures
        r.0 == entry_action(parent@, name@, kind, limits, *config, extensions@),
        r.1@ == display_path(parent@, name@),
{
    let full_path = join_display_path(parent, name);
    let chars = chars_of(name);
    proof {
        reveal_strlit(".");
        reveal_strlit("..");
        assert("."@ =~= seq!['.']);
        assert(".."@ =~= seq!['.', '.']);
    }
    if chars.len() == 0 || chars_equal(chars.as_slice(), ".") || chars_equal(chars.as_slice(), "..") {
        return (EntryAction::Skip, full_path);
    }
    if kind.is_dir {
        let too_deep = match limits.max_search_level {
            Some(max_depth) => limits.depth >= max_depth,
            None => false,
        };
        if too_deep || is_hidden_tree(name) || is_ventoy_plugin_tree_path(full_path.as_str()) {
            return (EntryAction::Skip, full_path);
        }
        return (EntryAction::Descend, full_path);
    }
    if kind.hidden_or_system || (limits.filter_dot_underscore && is_dot_underscore_file(name))
        || is_default_uefi_bootloader_path(full_path.as_str()) {
        return (EntryAction::Skip, full_path);
    }
    if kind.is_link_name {
        if config.supports_image_name(name) && config.allows_image_path(full_path.as_str()) {
            return (EntryAction::Link, full_path);
        }
        return (EntryAction::Skip, full_path);
    }
    if has_supported_extension(name, extensions) && config.supports_image_name(name) && config.allows_image_path(
        full_path.as_str(),
    ) {
        let format = ImageFormat::detect_from_path(full_path.as_str());
        return (EntryAction::Image(format), full_path);
    }
    (EntryAction::Skip, full_path)
}

} // verus!
