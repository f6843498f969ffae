//! Ventoy `ventoy.json` plugin configuration.
//!
//! Ventoy's plugin file is a broad JSON document.  What is read of it are the
//! parts that shape image discovery and the first boot menu: global control
//! file filters, the default search root, image white/black lists, and menu
//! aliases.  `grammar` states how the document is read.

pub mod grammar;
mod parser;

use crate::text::{
    chars_of, ends_with, ends_with_seq, lower_seq, lowercase_chars, starts_with_seq, string_from_chars, to_ascii_lower,
    trim_chars, trim_seq,
};
use grammar::{parse_config_bytes, ConfigView, VENTOY_JSON_MAX_SIZE};
use vstd::prelude::*;
use vstd::utf8::valid_utf8;

verus! {

/// Why `ventoy.json` could not be used.
#[derive(Debug, Clone, Copy, PartialEq, Eq, Structural)]
pub enum VentoyConfigError {
    NotFound,
    FileTooLarge,
    InvalidJson,
    OutOfMemory,
}

/// The `VTOY_FILE_FLT_*` switches: a set flag hides images of that kind.
#[derive(Debug, Clone, Copy, PartialEq, Eq, Structural)]
pub struct VentoyFileFilters {
    pub iso: bool,
    pub wim: bool,
    pub efi: bool,
    pub img: bool,
    pub vhd: bool,
    pub vtoy: bool,
}

impl Default for VentoyFileFilters {
    fn default() -> (r: Self)
        ensures
            r == (VentoyFileFilters { iso: false, wim: false, efi: false, img: false, vhd: false, vtoy: false }),
    {
        VentoyFileFilters { iso: false, wim: false, efi: false, img: false, vhd: false, vtoy: false }
    }
}

impl VentoyFileFilters {
    /// Sets the switch that `key` names; other keys change nothing.
    fn set_flag(&mut self, key: &[char], enabled: bool)
        ensures
            *final(self) == grammar::with_flag(*old(self), key@, enabled),
    {
        if crate::text::chars_equal(key, "VTOY_FILE_FLT_ISO") {
            self.iso = enabled;
        } else if crate::text::chars_equal(key, "VTOY_FILE_FLT_WIM") {
            self.wim = enabled;
        } else if crate::text::chars_equal(key, "VTOY_FILE_FLT_EFI") {
            self.efi = enabled;
        } else if crate::text::chars_equal(key, "VTOY_FILE_FLT_IMG") {
            self.img = enabled;
        } else if crate::text::chars_equal(key, "VTOY_FILE_FLT_VHD") {
            self.vhd = enabled;
        } else if crate::text::chars_equal(key, "VTOY_FILE_FLT_VTOY") {
            self.vtoy = enabled;
        }
    }
}

/// How the image list is used: not at all, as the only images shown, or as
/// images hidden.
#[derive(Debug, Clone, Copy, PartialEq, Eq, Structural)]
pub enum VentoyImageListMode {
    Off,
    Allow,
    Deny,
}

impl Default for VentoyImageListMode {
    fn default() -> (r: Self)
        ensures
            r == VentoyImageListMode::Off,
    {
        VentoyImageListMode::Off
    }
}

/// A menu name for one image.
#[derive(Debug, Clone, PartialEq, Eq)]
pub struct VentoyMenuAlias {
    pub image: String,
    pub alias: String,
}

/// What `ventoy.json` configures.
#[derive(Debug, Clone, PartialEq, Eq)]
pub struct VentoyConfig {
    pub filters: VentoyFileFilters,
    pub default_search_root: Option<String>,
    pub image_list_mode: VentoyImageListMode,
    pub image_list: Vec<String>,
    pub menu_aliases: Vec<VentoyMenuAlias>,
}

pub open spec fn string_view(s: String) -> Seq<char> {
    s@
}

pub open spec fn alias_view(a: VentoyMenuAlias) -> (Seq<char>, Seq<char>) {
    (a.image@, a.alias@)
}

impl View for VentoyConfig {
    type V = ConfigView;

    open spec fn view(&self) -> ConfigView {
        ConfigView {
            filters: self.filters,
            default_search_root: match self.default_search_root {
                Some(s) => Some(s@),
                None => None,
            },
            image_list_mode: self.image_list_mode,
            image_list: self.image_list@.map_values(|s: String| string_view(s)),
            menu_aliases: self.menu_aliases@.map_values(|a: VentoyMenuAlias| alias_view(a)),
        }
    }
}

impl Default for VentoyConfig {
    fn default() -> (r: Self)
        ensures
            r@ == grammar::empty_config(),
    {
        let r = VentoyConfig {
            filters: VentoyFileFilters::default(),
            default_search_root: None,
            image_list_mode: VentoyImageListMode::default(),
            image_list: Vec::new(),
            menu_aliases: Vec::new(),
        };
        assert(r@.image_list =~= Seq::<Seq<char>>::empty());
        assert(r@.menu_aliases =~= Seq::<(Seq<char>, Seq<char>)>::empty());
        r
    }
}

/// A configured path as it is compared: trimmed, with `\` turned into `/`,
/// and rooted at `/`; empty when the path is blank.
pub open spec fn normalized_config_path(path: Seq<char>) -> Seq<char> {
    let t = trim_seq(path);
    let body = t.map_values(|c: char| if c == '\\' { '/' } else { c });
    if t.len() == 0 {
        Seq::empty()
    } else if t[0] == '/' || t[0] == '\\' {
        body
    } else {
        seq!['/'] + body
    }
}

/// Two configured paths name the same file: equal once normalized, ignoring
/// ASCII case.
pub open spec fn paths_match(left: Seq<char>, right: Seq<char>) -> bool {
    lower_seq(normalized_config_path(left)) == lower_seq(normalized_config_path(right))
}

/// Some entry of `list` matches `path`.
pub open spec fn listed(list: Seq<Seq<char>>, path: Seq<char>) -> bool {
    exists|i: int| 0 <= i < list.len() && paths_match(list[i], path)
}

/// The alias of the first entry whose image matches `path`.
pub open spec fn first_alias(aliases: Seq<(Seq<char>, Seq<char>)>, path: Seq<char>) -> Option<Seq<char>>
    decreases aliases.len(),
{
    if aliases.len() == 0 {
        None
    } else if paths_match(aliases[0].0, path) {
        Some(aliases[0].1)
    } else {
        first_alias(aliases.drop_first(), path)
    }
}

/// Whether the filters let an image named `name` be listed; names of other
/// kinds are never listed.
pub open spec fn name_supported(filters: VentoyFileFilters, name: Seq<char>) -> bool {
    let n = lower_seq(name);
    if ends_with_seq(n, seq!['.', 'i', 's', 'o']) {
        !filters.iso
    } else if ends_with_seq(n, seq!['.', 'w', 'i', 'm']) || ends_with_seq(n, seq!['.', 'e', 's', 'd']) {
        !filters.wim
    } else if ends_with_seq(n, seq!['.', 'e', 'f', 'i']) {
        !filters.efi
    } else if ends_with_seq(n, seq!['.', 'i', 'm', 'g']) {
        !filters.img
    } else if ends_with_seq(n, seq!['.', 'v', 'h', 'd']) || ends_with_seq(n, seq!['.', 'v', 'h', 'd', 'x'])
        || ends_with_seq(n, seq!['.', 'v', 'd', 'i']) {
        !filters.vhd
    } else if ends_with_seq(n, seq!['.', 'v', 't', 'o', 'y']) {
        !filters.vtoy
    } else {
        false
    }
}

/// Whether the image list lets `path` be shown.
pub open spec fn path_allowed(cfg: ConfigView, path: Seq<char>) -> bool {
    match cfg.image_list_mode {
        VentoyImageListMode::Off => true,
        VentoyImageListMode::Allow => listed(cfg.image_list, path),
        VentoyImageListMode::Deny => !listed(cfg.image_list, path),
    }
}

impl VentoyConfig {
    /// Reads `ventoy.json`: too large a file gives `FileTooLarge`, bytes that
    /// are not UTF-8 or not a well-formed document give `InvalidJson`.
    pub fn parse(bytes: &[u8]) -> (r: Result<Self, VentoyConfigError>)
        ensures
            match r {
                Ok(cfg) => parse_config_bytes(bytes@) == Ok::<ConfigView, VentoyConfigError>(cfg@),
                Err(e) => parse_config_bytes(bytes@) == Err::<ConfigView, VentoyConfigError>(e),
            },
            bytes@.len() > VENTOY_JSON_MAX_SIZE ==> r matches Err(VentoyConfigError::FileTooLarge),
            bytes@.len() <= VENTOY_JSON_MAX_SIZE && !valid_utf8(bytes@) ==> r matches Err(VentoyConfigError::InvalidJson),
    {
        if bytes.len() > VENTOY_JSON_MAX_SIZE {
            return Err(VentoyConfigError::FileTooLarge);
        }
        if !crate::text::utf8_valid_from(bytes, 0) {
            assert(bytes@.subrange(0, bytes@.len() as int) =~= bytes@);
            return Err(VentoyConfigError::InvalidJson);
        }
        assert(bytes@.subrange(0, bytes@.len() as int) =~= bytes@);
        let mut parser = parser::JsonParser::new(bytes);
        parser.parse_config()
    }

    /// Directories to search for images: the configured default search root
    /// when it is set and not blank, else `fallback`.
    pub fn search_roots(&self, fallback: &[&str]) -> (r: Vec<String>)
        ensures
            r@.map_values(|s: String| string_view(s)) == (match self.default_search_root {
                Some(root) if normalized_config_path(root@).len() > 0 => seq![normalized_config_path(root@)],
                _ => fallback@.map_values(|s: &str| s@),
            }),
    {
        let mut out: Vec<String> = Vec::new();
        match &self.default_search_root {
            Some(root) => {
                let normalized = normalized_config_chars(root.as_str());
                if normalized.len() > 0 {
                    out.push(string_from_chars(normalized.as_slice()));
                    assert(out@.map_values(|s: String| string_view(s)) =~= seq![normalized_config_path(root@)]);
                    return out;
                }
            },
            None => {},
        }
        let mut i: usize = 0;
        assert(out@.map_values(|s: String| string_view(s)) =~= fallback@.take(0).map_values(|s: &str| s@));
        while i < fallback.len()
            invariant
                i <= fallback@.len(),
                out@.map_values(|s: String| string_view(s)) == fallback@.take(i as int).map_values(|s: &str| s@),
            decreases fallback@.len() - i,
        {
            let path: &str = fallback[i];
            let copy = string_from_chars(chars_of(path).as_slice());
            let ghost before = out@;
            out.push(copy);
            assert(fallback@.take(i + 1) =~= fallback@.take(i as int).push(path));
            assert(out@ =~= before.push(copy));
            assert(out@.map_values(|s: String| string_view(s)) =~= before.map_values(|s: String| string_view(s)).push(path@));
            assert(fallback@.take(i + 1).map_values(|s: &str| s@) =~= fallback@.take(i as int).map_values(|s: &str| s@).push(path@));
            i += 1;
        }
        assert(fallback@.take(i as int) =~= fallback@);
        out
    }

    /// Whether the file filters let an image named `name` be listed.
    pub fn supports_image_name(&self, name: &str) -> (r: bool)
        ensures
            r == name_supported(self.filters, name@),
    {
        let lower = lowercase_chars(name);
        let n = lower.as_slice();
        if ends_with(n, &['.', 'i', 's', 'o']) {
            return !self.filters.iso;
        }
        if ends_with(n, &['.', 'w', 'i', 'm']) || ends_with(n, &['.', 'e', 's', 'd']) {
            return !self.filters.wim;
        }
        if ends_with(n, &['.', 'e', 'f', 'i']) {
            return !self.filters.efi;
        }
        if ends_with(n, &['.', 'i', 'm', 'g']) {
            return !self.filters.img;
        }
        if ends_with(n, &['.', 'v', 'h', 'd']) || ends_with(n, &['.', 'v', 'h', 'd', 'x']) || ends_with(n, &['.', 'v', 'd', 'i']) {
            return !self.filters.vhd;
        }
        if ends_with(n, &['.', 'v', 't', 'o', 'y']) {
            return !self.filters.vtoy;
        }
        false
    }

    /// Whether the image white/black list lets `path` be shown.
    pub fn allows_image_path(&self, path: &str) -> (r: bool)
        ensures
            r == path_allowed(self@, path@),
    {
        match self.image_list_mode {
            VentoyImageListMode::Off => true,
            VentoyImageListMode::Allow => self.image_listed(path),
            VentoyImageListMode::Deny => !self.image_listed(path),
        }
    }

    /// Whether some image list entry matches `path`.
    fn image_listed(&self, path: &str) -> (r: bool)
        ensures
            r == listed(self@.image_list, path@),
    {
        let ghost list = self@.image_list;
        let mut i: usize = 0;
        while i < self.image_list.len()
            invariant
                i <= self.image_list@.len(),
                list == self@.image_list,
                list.len() == self.image_list@.len(),
                forall|j: int| 0 <= j < i ==> !paths_match(list[j], path@),
            decreases self.image_list@.len() - i,
        {
            if path_eq(self.image_list[i].as_str(), path) {
                assert(paths_match(list[i as int], path@));
                return true;
            }
            i += 1;
        }
        false
    }

    /// The menu alias configured for `path`, from the first entry whose
    /// image matches it.
    pub fn menu_alias_for(&self, path: &str) -> (r: Option<&str>)
        ensures
            match r {
                Some(alias) => first_alias(self@.menu_aliases, path@) == Some(alias@),
                None => first_alias(self@.menu_aliases, path@) is None,
            },
    {
        let ghost aliases = self@.menu_aliases;
        assert(aliases.subrange(0, aliases.len() as int) =~= aliases);
        let mut i: usize = 0;
        while i < self.menu_aliases.len()
            invariant
                i <= self.menu_aliases@.len(),
                aliases == self@.menu_aliases,
                aliases.len() == self.menu_aliases@.len(),
                first_alias(aliases.subrange(i as int, aliases.len() as int), path@) == first_alias(aliases, path@),
            decreases self.menu_aliases@.len() - i,
        {
            let ghost rest = aliases.subrange(i as int, aliases.len() as int);
            assert(rest.drop_first() =~= aliases.subrange(i + 1, aliases.len() as int));
            let entry = &self.menu_aliases[i];
            if path_eq(entry.image.as_str(), path) {
                return Some(entry.alias.as_str());
            }
            i += 1;
        }
        None
    }
}

/// The characters of the normalized form of a configured path.
fn normalized_config_chars(path: &str) -> (r: Vec<char>)
    ensures
        r@ == normalized_config_path(path@),
{
    let chars = chars_of(path);
    let trimmed = trim_chars(chars.as_slice());
    let mut out: Vec<char> = Vec::new();
    if trimmed.len() == 0 {
        return out;
    }
    if trimmed[0] != '/' && trimmed[0] != '\\' {
        out.push('/');
    }
    let ghost lead = out@;
    let mut i: usize = 0;
    while i < trimmed.len()
        invariant
            i <= trimmed@.len(),
            out@ == lead + trimmed@.take(i as int).map_values(|c: char| if c == '\\' { '/' } else { c }),
        decreases trimmed@.len() - i,
    {
        let c = trimmed[i];
        out.push(if c == '\\' { '/' } else { c });
        assert(trimmed@.take(i + 1).map_values(|c: char| if c == '\\' { '/' } else { c })
            =~= trimmed@.take(i as int).map_values(|c: char| if c == '\\' { '/' } else { c }).push(if c == '\\' { '/' } else { c }));
        i += 1;
    }
    assert(trimmed@.take(i as int) =~= trimmed@);
    assert(out@ =~= normalized_config_path(path@));
    out
}

/// A configured path in normalized form.
pub fn normalize_config_path(path: &str) -> (r: String)
    ensures
        r@ == normalized_config_path(path@),
{
    string_from_chars(normalized_config_chars(path).as_slice())
}

/// Whether two configured paths name the same file.
pub fn path_eq(left: &str, right: &str) -> (r: bool)
    ensures
        r == paths_match(left@, right@),
{
    let a = normalized_config_chars(left);
    let b = normalized_config_chars(right);
    if a.len() != b.len() {
        assert(lower_seq(a@).len() != lower_seq(b@).len());
        return false;
    }
    let mut i: usize = 0;
    while i < a.len()
        invariant
            a@ == normalized_config_path(left@),
            b@ == normalized_config_path(right@),
            a@.len() == b@.len(),
            i <= a@.len(),
            forall|j: int| 0 <= j < i ==> lower_seq(a@)[j] == lower_seq(b@)[j],
        decreases a@.len() - i,
    {
        if to_ascii_lower(a[i]) != to_ascii_lower(b[i]) {
            assert(lower_seq(a@)[i as int] != lower_seq(b@)[i as int]);
            return false;
        }
        i += 1;
    }
    assert(lower_seq(a@) =~= lower_seq(b@));
    true
}

/// Allowing with a list and denying with the same list split every path
/// between them.
pub proof fn lemma_allow_and_deny_are_complementary(cfg: ConfigView, path: Seq<char>)
    requires
        cfg.image_list_mode == VentoyImageListMode::Allow,
    ensures
        path_allowed(cfg, path) != path_allowed(ConfigView { image_list_mode: VentoyImageListMode::Deny, ..cfg }, path),
{
}

/// The name, ASCII-lowercased, ends with `ext`.
pub open spec fn has_extension(name: Seq<char>, ext: Seq<char>) -> bool {
    ends_with_seq(lower_seq(name), ext)
}

proof fn lemma_extension_tail(name: Seq<char>, ext: Seq<char>)
    requires
        has_extension(name, ext),
        ext.len() >= 2,
    ensures
        lower_seq(name)[lower_seq(name).len() - 1] == ext[ext.len() - 1],
        lower_seq(name)[lower_seq(name).len() - 2] == ext[ext.len() - 2],
{
    let n = lower_seq(name);
    let k = n.len() - ext.len();
    assert(n.subrange(k, n.len() as int)[ext.len() - 1] == ext[ext.len() - 1]);
    assert(n.subrange(k, n.len() as int)[ext.len() - 2] == ext[ext.len() - 2]);
}

/// Each kind of image is listed exactly when its own filter is clear, and a
/// name of no known kind is never listed. The kinds go by the name's
/// extension, in any case: `.iso`; `.wim` and `.esd` (both WIM images);
/// `.efi`; `.img`; `.vhd`, `.vhdx` and `.vdi` (virtual disks); `.vtoy`.
pub proof fn lemma_filters_decide_by_extension(filters: VentoyFileFilters, name: Seq<char>)
    ensures
        has_extension(name, seq!['.', 'i', 's', 'o']) ==> (name_supported(filters, name) <==> !filters.iso),
        has_extension(name, seq!['.', 'w', 'i', 'm']) ==> (name_supported(filters, name) <==> !filters.wim),
        has_extension(name, seq!['.', 'e', 's', 'd']) ==> (name_supported(filters, name) <==> !filters.wim),
        has_extension(name, seq!['.', 'e', 'f', 'i']) ==> (name_supported(filters, name) <==> !filters.efi),
        has_extension(name, seq!['.', 'i', 'm', 'g']) ==> (name_supported(filters, name) <==> !filters.img),
        has_extension(name, seq!['.', 'v', 'h', 'd']) ==> (name_supported(filters, name) <==> !filters.vhd),
        has_extension(name, seq!['.', 'v', 'h', 'd', 'x']) ==> (name_supported(filters, name) <==> !filters.vhd),
        has_extension(name, seq!['.', 'v', 'd', 'i']) ==> (name_supported(filters, name) <==> !filters.vhd),
        has_extension(name, seq!['.', 'v', 't', 'o', 'y']) ==> (name_supported(filters, name) <==> !filters.vtoy),
        !has_extension(name, seq!['.', 'i', 's', 'o']) && !has_extension(name, seq!['.', 'w', 'i', 'm'])
            && !has_extension(name, seq!['.', 'e', 's', 'd']) && !has_extension(name, seq!['.', 'e', 'f', 'i'])
            && !has_extension(name, seq!['.', 'i', 'm', 'g']) && !has_extension(name, seq!['.', 'v', 'h', 'd'])
            && !has_extension(name, seq!['.', 'v', 'h', 'd', 'x']) && !has_extension(name, seq!['.', 'v', 'd', 'i'])
            && !has_extension(name, seq!['.', 'v', 't', 'o', 'y']) ==> !name_supported(filters, name),
{
    let exts = seq![
        seq!['.', 'i', 's', 'o'],
        seq!['.', 'w', 'i', 'm'],
        seq!['.', 'e', 's', 'd'],
        seq!['.', 'e', 'f', 'i'],
        seq!['.', 'i', 'm', 'g'],
        seq!['.', 'v', 'h', 'd'],
        seq!['.', 'v', 'h', 'd', 'x'],
        seq!['.', 'v', 'd', 'i'],
        seq!['.', 'v', 't', 'o', 'y'],
    ];
    assert forall|i: int| 0 <= i < 9 && #[trigger] has_extension(name, exts[i]) implies {
        &&& lower_seq(name)[lower_seq(name).len() - 1] == exts[i][exts[i].len() - 1]
        &&& lower_seq(name)[lower_seq(name).len() - 2] == exts[i][exts[i].len() - 2]
    } by {
        lemma_extension_tail(name, exts[i]);
    }
    assert(has_extension(name, seq!['.', 'i', 's', 'o']) == has_extension(name, exts[0]));
    assert(has_extension(name, seq!['.', 'w', 'i', 'm']) == has_extension(name, exts[1]));
    assert(has_extension(name, seq!['.', 'e', 's', 'd']) == has_extension(name, exts[2]));
    assert(has_extension(name, seq!['.', 'e', 'f', 'i']) == has_extension(name, exts[3]));
    assert(has_extension(name, seq!['.', 'i', 'm', 'g']) == has_extension(name, exts[4]));
    assert(has_extension(name, seq!['.', 'v', 'h', 'd']) == has_extension(name, exts[5]));
    assert(has_extension(name, seq!['.', 'v', 'h', 'd', 'x']) == has_extension(name, exts[6]));
    assert(has_extension(name, seq!['.', 'v', 'd', 'i']) == has_extension(name, exts[7]));
    assert(has_extension(name, seq!['.', 'v', 't', 'o', 'y']) == has_extension(name, exts[8]));
}

} // verus!
