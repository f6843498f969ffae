//! The subset of JSON that `ventoy.json` is read with, as functions over the
//! file's bytes.
//!
//! Each function takes the bytes and a position and gives the position after
//! what it read together with the outcome.  After an error the position is of
//! no further use.  Loops that end by reading a value of unknown length
//! re-check that the position moved forward; a value never ends before it
//! started, so that check never fails.

use super::{VentoyConfigError, VentoyFileFilters, VentoyImageListMode};
use vstd::prelude::*;
use vstd::utf8::{decode_first_scalar, is_scalar, length_of_first_scalar, valid_utf8};

verus! {

/// Largest `ventoy.json` that is read.
pub const VENTOY_JSON_MAX_SIZE: usize = 262144;

/// What a parsed `ventoy.json` configures.
pub struct ConfigView {
    pub filters: VentoyFileFilters,
    pub default_search_root: Option<Seq<char>>,
    pub image_list_mode: VentoyImageListMode,
    pub image_list: Seq<Seq<char>>,
    pub menu_aliases: Seq<(Seq<char>, Seq<char>)>,
}

/// The configuration before any plugin is read.
pub open spec fn empty_config() -> ConfigView {
    ConfigView {
        filters: VentoyFileFilters { iso: false, wim: false, efi: false, img: false, vhd: false, vtoy: false },
        default_search_root: None,
        image_list_mode: VentoyImageListMode::Off,
        image_list: Seq::empty(),
        menu_aliases: Seq::empty(),
    }
}

pub open spec fn invalid<T>() -> Result<T, VentoyConfigError> {
    Err(VentoyConfigError::InvalidJson)
}

/// JSON whitespace (ASCII space, tab, line feed, form feed, carriage return).
pub open spec fn is_json_ws(b: u8) -> bool {
    b == 0x20 || b == 0x09 || b == 0x0a || b == 0x0c || b == 0x0d
}

pub open spec fn byte_at(s: Seq<u8>, p: int) -> Option<u8> {
    if 0 <= p < s.len() {
        Some(s[p])
    } else {
        None
    }
}

/// The first position at or after `p` that does not hold whitespace.
pub open spec fn skip_ws(s: Seq<u8>, p: int) -> int
    decreases s.len() - p,
{
    if 0 <= p < s.len() && is_json_ws(s[p]) {
        skip_ws(s, p + 1)
    } else {
        p
    }
}

/// Skips whitespace, then requires the byte `b`.
pub open spec fn expect(s: Seq<u8>, p: int, b: u8) -> (int, Result<(), VentoyConfigError>) {
    let q = skip_ws(s, p);
    if byte_at(s, q) == Some(b) {
        (q + 1, Ok(()))
    } else {
        (q, invalid())
    }
}

/// Value of a hexadecimal digit.
pub open spec fn hex_digit(b: u8) -> Option<u32> {
    if 0x30 <= b <= 0x39 {
        Some((b - 0x30) as u32)
    } else if 0x61 <= b <= 0x66 {
        Some((b - 0x61 + 10) as u32)
    } else if 0x41 <= b <= 0x46 {
        Some((b - 0x41 + 10) as u32)
    } else {
        None
    }
}

/// The character of a `\uXXXX` escape whose four digits start at `p`; a
/// surrogate code is refused.
pub open spec fn unicode_escape(s: Seq<u8>, p: int) -> (int, Result<char, VentoyConfigError>) {
    if p < 0 || p + 4 > s.len() {
        (p, invalid())
    } else if hex_digit(s[p]) is None || hex_digit(s[p + 1]) is None || hex_digit(s[p + 2]) is None
        || hex_digit(s[p + 3]) is None {
        (p, invalid())
    } else {
        let v = (((hex_digit(s[p])->Some_0 * 16 + hex_digit(s[p + 1])->Some_0) * 16 + hex_digit(s[p + 2])->Some_0) * 16
            + hex_digit(s[p + 3])->Some_0) as u32;
        if is_scalar(v) {
            (p + 4, Ok(v as char))
        } else {
            (p + 4, invalid())
        }
    }
}

/// The character of a one-letter escape such as `\n`.
pub open spec fn simple_escape(e: u8) -> Option<char> {
    if e == 0x22 {
        Some('"')
    } else if e == 0x5c {
        Some('\\')
    } else if e == 0x2f {
        Some('/')
    } else if e == 0x62 {
        Some('\u{8}')
    } else if e == 0x66 {
        Some('\u{c}')
    } else if e == 0x6e {
        Some('\n')
    } else if e == 0x72 {
        Some('\r')
    } else if e == 0x74 {
        Some('\t')
    } else {
        None
    }
}

/// The character encoded from `p` on and its length, provided everything
/// from `p` to the end is well-formed UTF-8.
pub open spec fn utf8_char_at(s: Seq<u8>, p: int) -> Option<(char, int)> {
    let rest = s.subrange(p, s.len() as int);
    if 0 <= p < s.len() && valid_utf8(rest) {
        Some((decode_first_scalar(rest) as char, length_of_first_scalar(rest)))
    } else {
        None
    }
}

/// The rest of a string literal from `p` (after the opening quote), with
/// `acc` the characters read so far.
pub open spec fn string_body(s: Seq<u8>, p: int, acc: Seq<char>) -> (int, Result<Seq<char>, VentoyConfigError>)
    decreases s.len() - p,
{
    if p < 0 || p >= s.len() {
        (p, invalid())
    } else {
        let b = s[p];
        if b == 0x22 {
            (p + 1, Ok(acc))
        } else if b == 0x5c {
            if p + 1 >= s.len() {
                (p + 1, invalid())
            } else if s[p + 1] == 0x75 {
                let (q, r) = unicode_escape(s, p + 2);
                match r {
                    Err(e) => (q, Err(e)),
                    Ok(c) => string_body(s, q, acc.push(c)),
                }
            } else {
                match simple_escape(s[p + 1]) {
                    Some(c) => string_body(s, p + 2, acc.push(c)),
                    None => (p + 2, invalid()),
                }
            }
        } else if b < 0x20 {
            (p + 1, invalid())
        } else if b < 0x80 {
            string_body(s, p + 1, acc.push(b as char))
        } else {
            match utf8_char_at(s, p) {
                None => (p + 1, invalid()),
                Some((c, n)) => if n >= 1 && p + n <= s.len() {
                    string_body(s, p + n, acc.push(c))
                } else {
                    (p + 1, invalid())
                },
            }
        }
    }
}

/// A string literal, after optional whitespace.
pub open spec fn parse_string(s: Seq<u8>, p: int) -> (int, Result<Seq<char>, VentoyConfigError>) {
    let (q, r) = expect(s, skip_ws(s, p), 0x22);
    match r {
        Err(e) => (q, Err(e)),
        Ok(_) => string_body(s, q, Seq::empty()),
    }
}

/// A string literal if one follows, else nothing.
pub open spec fn optional_string(s: Seq<u8>, p: int) -> (int, Result<Option<Seq<char>>, VentoyConfigError>) {
    let q = skip_ws(s, p);
    if byte_at(s, q) == Some(0x22u8) {
        let (e, r) = parse_string(s, q);
        match r {
            Err(x) => (e, Err(x)),
            Ok(v) => (e, Ok(Some(v))),
        }
    } else {
        (q, Ok(None))
    }
}

/// End of a bare value (number, `true`, ...): the first delimiter or
/// whitespace at or after `p`.
pub open spec fn scalar_end(s: Seq<u8>, p: int) -> int
    decreases s.len() - p,
{
    if 0 <= p < s.len() && !(s[p] == 0x2c || s[p] == 0x7d || s[p] == 0x5d || is_json_ws(s[p])) {
        scalar_end(s, p + 1)
    } else {
        p
    }
}

/// Skips one value of any kind.
pub open spec fn skip_value(s: Seq<u8>, p: int) -> (int, Result<(), VentoyConfigError>)
    decreases s.len() - p, 0int,
{
    if p < 0 || p > s.len() {
        (p, invalid())
    } else {
        let q = skip_ws(s, p);
        proof {
            lemma_skip_ws(s, p);
        }
        match byte_at(s, q) {
            None => (q, invalid()),
            Some(b) => if b == 0x22 {
                let (e, r) = parse_string(s, q);
                match r {
                    Err(x) => (e, Err(x)),
                    Ok(_) => (e, Ok(())),
                }
            } else if b == 0x7b {
                skip_members(s, q + 1)
            } else if b == 0x5b {
                skip_items(s, q + 1)
            } else {
                (scalar_end(s, q), Ok(()))
            },
        }
    }
}

/// Skips the members of an object from `q` (after the opening brace).
pub open spec fn skip_members(s: Seq<u8>, q: int) -> (int, Result<(), VentoyConfigError>)
    decreases s.len() - q, 1int,
{
    if q < 0 || q > s.len() {
        (q, invalid())
    } else {
        let p0 = skip_ws(s, q);
        proof {
            lemma_skip_ws(s, q);
        }
        if byte_at(s, p0) == Some(0x7du8) {
            (p0 + 1, Ok(()))
        } else {
            let (p1, r1) = parse_string(s, p0);
            match r1 {
                Err(e) => (p1, Err(e)),
                Ok(_) => {
                    proof {
                        lemma_parse_string(s, p0);
                    }
                    let (p2, r2) = expect(s, p1, 0x3a);
                    match r2 {
                        Err(e) => (p2, Err(e)),
                        Ok(_) => {
                            proof {
                                lemma_expect(s, p1, 0x3a);
                            }
                            let (p3, r3) = skip_value(s, p2);
                            match r3 {
                                Err(e) => (p3, Err(e)),
                                Ok(_) => if p3 < p2 || p3 > s.len() {
                                    (p3, invalid())
                                } else {
                                    let p4 = skip_ws(s, p3);
                                    proof {
                                        lemma_skip_ws(s, p3);
                                    }
                                    if byte_at(s, p4) == Some(0x2cu8) {
                                        skip_members(s, p4 + 1)
                                    } else {
                                        expect(s, p4, 0x7d)
                                    }
                                },
                            }
                        },
                    }
                },
            }
        }
    }
}

/// Skips the items of an array from `q` (after the opening bracket).
pub open spec fn skip_items(s: Seq<u8>, q: int) -> (int, Result<(), VentoyConfigError>)
    decreases s.len() - q, 1int,
{
    if q < 0 || q > s.len() {
        (q, invalid())
    } else {
        let p0 = skip_ws(s, q);
        proof {
            lemma_skip_ws(s, q);
        }
        if byte_at(s, p0) == Some(0x5du8) {
            (p0 + 1, Ok(()))
        } else {
            let (p3, r3) = skip_value(s, p0);
            match r3 {
                Err(e) => (p3, Err(e)),
                Ok(_) => if p3 < p0 || p3 > s.len() {
                    (p3, invalid())
                } else {
                    let p4 = skip_ws(s, p3);
                    proof {
                        lemma_skip_ws(s, p3);
                    }
                    if byte_at(s, p4) == Some(0x2cu8) {
                        skip_items(s, p4 + 1)
                    } else {
                        expect(s, p4, 0x5d)
                    }
                },
            }
        }
    }
}

/// The filters with the flag that `key` names set to `enabled`.
pub open spec fn with_flag(f: VentoyFileFilters, key: Seq<char>, enabled: bool) -> VentoyFileFilters {
    if key == "VTOY_FILE_FLT_ISO"@ {
        VentoyFileFilters { iso: enabled, ..f }
    } else if key == "VTOY_FILE_FLT_WIM"@ {
        VentoyFileFilters { wim: enabled, ..f }
    } else if key == "VTOY_FILE_FLT_EFI"@ {
        VentoyFileFilters { efi: enabled, ..f }
    } else if key == "VTOY_FILE_FLT_IMG"@ {
        VentoyFileFilters { img: enabled, ..f }
    } else if key == "VTOY_FILE_FLT_VHD"@ {
        VentoyFileFilters { vhd: enabled, ..f }
    } else if key == "VTOY_FILE_FLT_VTOY"@ {
        VentoyFileFilters { vtoy: enabled, ..f }
    } else {
        f
    }
}

/// One `control` setting with string value `value`.
pub open spec fn apply_control(cfg: ConfigView, key: Seq<char>, value: Seq<char>) -> ConfigView {
    ConfigView {
        filters: with_flag(cfg.filters, key, value == "1"@),
        default_search_root: if key == "VTOY_DEFAULT_SEARCH_ROOT"@ && value.len() > 0 {
            Some(value)
        } else {
            cfg.default_search_root
        },
        ..cfg
    }
}

/// The members of one `control` object from `q` (after its opening brace).
pub open spec fn control_members(s: Seq<u8>, q: int, cfg: ConfigView) -> (int, Result<ConfigView, VentoyConfigError>)
    decreases s.len() - q,
{
    if q < 0 || q > s.len() {
        (q, invalid())
    } else {
        let p0 = skip_ws(s, q);
        proof {
            lemma_skip_ws(s, q);
        }
        if byte_at(s, p0) == Some(0x7du8) {
            (p0 + 1, Ok(cfg))
        } else {
            let (p1, r1) = parse_string(s, p0);
            match r1 {
                Err(e) => (p1, Err(e)),
                Ok(key) => {
                    proof {
                        lemma_parse_string(s, p0);
                    }
                    let (p2, r2) = expect(s, p1, 0x3a);
                    match r2 {
                        Err(e) => (p2, Err(e)),
                        Ok(_) => {
                            proof {
                                lemma_expect(s, p1, 0x3a);
                            }
                            let (p4, r4) = control_entry(s, p2, key, cfg);
                            match r4 {
                                Err(e) => (p4, Err(e)),
                                Ok(cfg2) => if p4 < p2 || p4 > s.len() {
                                    (p4, invalid())
                                } else {
                                    let p5 = skip_ws(s, p4);
                                    proof {
                                        lemma_skip_ws(s, p4);
                                    }
                                    if byte_at(s, p5) == Some(0x2cu8) {
                                        control_members(s, p5 + 1, cfg2)
                                    } else {
                                        let (p6, r6) = expect(s, p5, 0x7d);
                                        match r6 {
                                            Err(e) => (p6, Err(e)),
                                            Ok(_) => (p6, Ok(cfg2)),
                                        }
                                    }
                                },
                            }
                        },
                    }
                },
            }
        }
    }
}

/// The value of setting `key` inside a `control` object: a string applies
/// the setting, anything else is skipped.
#[verifier::opaque]
pub open spec fn control_entry(s: Seq<u8>, p: int, key: Seq<char>, cfg: ConfigView) -> (int, Result<ConfigView, VentoyConfigError>) {
    let (p3, r3) = optional_string(s, p);
    match r3 {
        Err(e) => (p3, Err(e)),
        Ok(v) => match v {
            Some(value) => (p3, Ok(apply_control(cfg, key, value))),
            None => {
                let (pv, rv) = skip_value(s, p3);
                match rv {
                    Err(e) => (pv, Err(e)),
                    Ok(_) => (pv, Ok(cfg)),
                }
            },
        },
    }
}

/// The objects of the `control` array from `q` (after its opening bracket).
pub open spec fn control_objects(s: Seq<u8>, q: int, cfg: ConfigView) -> (int, Result<ConfigView, VentoyConfigError>)
    decreases s.len() - q,
{
    if q < 0 || q > s.len() {
        (q, invalid())
    } else {
        let p0 = skip_ws(s, q);
        proof {
            lemma_skip_ws(s, q);
        }
        if byte_at(s, p0) == Some(0x5du8) {
            (p0 + 1, Ok(cfg))
        } else {
            let (p1, r1) = expect(s, p0, 0x7b);
            match r1 {
                Err(e) => (p1, Err(e)),
                Ok(_) => {
                    let (p2, r2) = control_members(s, p1, cfg);
                    match r2 {
                        Err(e) => (p2, Err(e)),
                        Ok(cfg2) => {
                            proof {
                                lemma_expect(s, p0, 0x7b);
                            }
                            if p2 < p1 || p2 > s.len() {
                                (p2, invalid())
                            } else {
                                let p3 = skip_ws(s, p2);
                                proof {
                                    lemma_skip_ws(s, p2);
                                }
                                if byte_at(s, p3) == Some(0x2cu8) {
                                    control_objects(s, p3 + 1, cfg2)
                                } else {
                                    let (p4, r4) = expect(s, p3, 0x5d);
                                    match r4 {
                                        Err(e) => (p4, Err(e)),
                                        Ok(_) => (p4, Ok(cfg2)),
                                    }
                                }
                            }
                        },
                    }
                },
            }
        }
    }
}

/// The `control` plugin's value.
pub open spec fn parse_control(s: Seq<u8>, p: int, cfg: ConfigView) -> (int, Result<ConfigView, VentoyConfigError>) {
    let (q, r) = expect(s, skip_ws(s, p), 0x5b);
    match r {
        Err(e) => (q, Err(e)),
        Ok(_) => control_objects(s, q, cfg),
    }
}

/// The members of one `menu_alias` object from `q`, with the image and
/// alias read so far.
#[verifier::opaque]
pub open spec fn alias_members(s: Seq<u8>, q: int, image: Option<Seq<char>>, alias: Option<Seq<char>>) -> (int, Result<(Option<Seq<char>>, Option<Seq<char>>), VentoyConfigError>)
    decreases s.len() - q,
{
    if q < 0 || q > s.len() {
        (q, invalid())
    } else {
        let p0 = skip_ws(s, q);
        proof {
            lemma_skip_ws(s, q);
        }
        if byte_at(s, p0) == Some(0x7du8) {
            (p0 + 1, Ok((image, alias)))
        } else {
            let (p1, r1) = parse_string(s, p0);
            match r1 {
                Err(e) => (p1, Err(e)),
                Ok(key) => {
                    proof {
                        lemma_parse_string(s, p0);
                    }
                    let (p2, r2) = expect(s, p1, 0x3a);
                    match r2 {
                        Err(e) => (p2, Err(e)),
                        Ok(_) => {
                            proof {
                                lemma_expect(s, p1, 0x3a);
                            }
                            let (p3, r3) = optional_string(s, p2);
                            match r3 {
                                Err(e) => (p3, Err(e)),
                                Ok(v) => {
                                    let (p4, r4) = match v {
                                        Some(value) => if key == "image"@ {
                                            (p3, Ok((Some(value), alias)))
                                        } else if key == "alias"@ {
                                            (p3, Ok((image, Some(value))))
                                        } else {
                                            (p3, Ok((image, alias)))
                                        },
                                        None => {
                                            let (pv, rv) = skip_value(s, p3);
                                            match rv {
                                                Err(e) => (pv, Err(e)),
                                                Ok(_) => (pv, Ok((image, alias))),
                                            }
                                        },
                                    };
                                    match r4 {
                                        Err(e) => (p4, Err(e)),
                                        Ok((image2, alias2)) => if p4 < p2 || p4 > s.len() {
                                            (p4, invalid())
                                        } else {
                                            let p5 = skip_ws(s, p4);
                                            proof {
                                                lemma_skip_ws(s, p4);
                                            }
                                            if byte_at(s, p5) == Some(0x2cu8) {
                                                alias_members(s, p5 + 1, image2, alias2)
                                            } else {
                                                let (p6, r6) = expect(s, p5, 0x7d);
                                                match r6 {
                                                    Err(e) => (p6, Err(e)),
                                                    Ok(_) => (p6, Ok((image2, alias2))),
                                                }
                                            }
                                        },
                                    }
                                },
                            }
                        },
                    }
                },
            }
        }
    }
}

/// The configuration with the alias of one `menu_alias` object added when
/// it named both an image and an alias.
pub open spec fn with_alias(cfg: ConfigView, image: Option<Seq<char>>, alias: Option<Seq<char>>) -> ConfigView {
    match (image, alias) {
        (Some(i), Some(a)) => ConfigView { menu_aliases: cfg.menu_aliases.push((i, a)), ..cfg },
        _ => cfg,
    }
}

/// The objects of the `menu_alias` array from `q`.
pub open spec fn alias_objects(s: Seq<u8>, q: int, cfg: ConfigView) -> (int, Result<ConfigView, VentoyConfigError>)
    decreases s.len() - q,
{
    if q < 0 || q > s.len() {
        (q, invalid())
    } else {
        let p0 = skip_ws(s, q);
        proof {
            lemma_skip_ws(s, q);
        }
        if byte_at(s, p0) == Some(0x5du8) {
            (p0 + 1, Ok(cfg))
        } else {
            let (p1, r1) = expect(s, p0, 0x7b);
            match r1 {
                Err(e) => (p1, Err(e)),
                Ok(_) => {
                    let (p2, r2) = alias_members(s, p1, None, None);
                    match r2 {
                        Err(e) => (p2, Err(e)),
                        Ok((image, alias)) => {
                            proof {
                                lemma_expect(s, p0, 0x7b);
                            }
                            if p2 < p1 || p2 > s.len() {
                                (p2, invalid())
                            } else {
                                let cfg2 = with_alias(cfg, image, alias);
                                let p3 = skip_ws(s, p2);
                                proof {
                                    lemma_skip_ws(s, p2);
                                }
                                if byte_at(s, p3) == Some(0x2cu8) {
                                    alias_objects(s, p3 + 1, cfg2)
                                } else {
                                    let (p4, r4) = expect(s, p3, 0x5d);
                                    match r4 {
                                        Err(e) => (p4, Err(e)),
                                        Ok(_) => (p4, Ok(cfg2)),
                                    }
                                }
                            }
                        },
                    }
                },
            }
        }
    }
}

/// The `menu_alias` plugin's value.
pub open spec fn parse_menu_alias(s: Seq<u8>, p: int, cfg: ConfigView) -> (int, Result<ConfigView, VentoyConfigError>) {
    let (q, r) = expect(s, skip_ws(s, p), 0x5b);
    match r {
        Err(e) => (q, Err(e)),
        Ok(_) => alias_objects(s, q, cfg),
    }
}

/// The strings of an array from `q`, after `values`.
pub open spec fn string_items(s: Seq<u8>, q: int, values: Seq<Seq<char>>) -> (int, Result<Seq<Seq<char>>, VentoyConfigError>)
    decreases s.len() - q,
{
    if q < 0 || q > s.len() {
        (q, invalid())
    } else {
        let p0 = skip_ws(s, q);
        proof {
            lemma_skip_ws(s, q);
        }
        if byte_at(s, p0) == Some(0x5du8) {
            (p0 + 1, Ok(values))
        } else {
            let (p1, r1) = parse_string(s, p0);
            match r1 {
                Err(e) => (p1, Err(e)),
                Ok(v) => {
                    proof {
                        lemma_parse_string(s, p0);
                    }
                    let p2 = skip_ws(s, p1);
                    proof {
                        lemma_skip_ws(s, p1);
                    }
                    if byte_at(s, p2) == Some(0x2cu8) {
                        string_items(s, p2 + 1, values.push(v))
                    } else {
                        let (p3, r3) = expect(s, p2, 0x5d);
                        match r3 {
                            Err(e) => (p3, Err(e)),
                            Ok(_) => (p3, Ok(values.push(v))),
                        }
                    }
                },
            }
        }
    }
}

/// An array of strings.
pub open spec fn parse_string_array(s: Seq<u8>, p: int) -> (int, Result<Seq<Seq<char>>, VentoyConfigError>) {
    let (q, r) = expect(s, skip_ws(s, p), 0x5b);
    match r {
        Err(e) => (q, Err(e)),
        Ok(_) => string_items(s, q, Seq::empty()),
    }
}

/// The value of the top-level member `key`.
#[verifier::opaque]
pub open spec fn member_value(s: Seq<u8>, p: int, key: Seq<char>, cfg: ConfigView) -> (int, Result<ConfigView, VentoyConfigError>) {
    if key == "control"@ {
        parse_control(s, p, cfg)
    } else if key == "menu_alias"@ {
        parse_menu_alias(s, p, cfg)
    } else if key == "image_list"@ || key == "image_blacklist"@ {
        let mode = if key == "image_list"@ { VentoyImageListMode::Allow } else { VentoyImageListMode::Deny };
        let (q, r) = parse_string_array(s, p);
        match r {
            Err(e) => (q, Err(e)),
            Ok(list) => (q, Ok(ConfigView { image_list_mode: mode, image_list: list, ..cfg })),
        }
    } else {
        let (q, r) = skip_value(s, p);
        match r {
            Err(e) => (q, Err(e)),
            Ok(_) => (q, Ok(cfg)),
        }
    }
}

/// The top-level members from `q` (after the opening brace).
pub open spec fn config_members(s: Seq<u8>, q: int, cfg: ConfigView) -> (int, Result<ConfigView, VentoyConfigError>)
    decreases s.len() - q,
{
    if q < 0 || q > s.len() {
        (q, invalid())
    } else {
        let p0 = skip_ws(s, q);
        proof {
            lemma_skip_ws(s, q);
        }
        if byte_at(s, p0) == Some(0x7du8) {
            (p0 + 1, Ok(cfg))
        } else {
            let (p1, r1) = parse_string(s, p0);
            match r1 {
                Err(e) => (p1, Err(e)),
                Ok(key) => {
                    proof {
                        lemma_parse_string(s, p0);
                    }
                    let (p2, r2) = expect(s, p1, 0x3a);
                    match r2 {
                        Err(e) => (p2, Err(e)),
                        Ok(_) => {
                            proof {
                                lemma_expect(s, p1, 0x3a);
                            }
                            let (p3, r3) = member_value(s, p2, key, cfg);
                            match r3 {
                                Err(e) => (p3, Err(e)),
                                Ok(cfg2) => if p3 < p2 || p3 > s.len() {
                                    (p3, invalid())
                                } else {
                                    let p4 = skip_ws(s, p3);
                                    proof {
                                        lemma_skip_ws(s, p3);
                                    }
                                    if byte_at(s, p4) == Some(0x2cu8) {
                                        config_members(s, p4 + 1, cfg2)
                                    } else {
                                        let (p5, r5) = expect(s, p4, 0x7d);
                                        match r5 {
                                            Err(e) => (p5, Err(e)),
                                            Ok(_) => (p5, Ok(cfg2)),
                                        }
                                    }
                                },
                            }
                        },
                    }
                },
            }
        }
    }
}

/// A whole `ventoy.json` document: one object and nothing but whitespace
/// after it.
pub open spec fn parse_document(s: Seq<u8>) -> Result<ConfigView, VentoyConfigError> {
    let (p1, r1) = expect(s, skip_ws(s, 0), 0x7b);
    match r1 {
        Err(e) => Err(e),
        Ok(_) => {
            let (p2, r2) = config_members(s, p1, empty_config());
            match r2 {
                Err(e) => Err(e),
                Ok(cfg) => if skip_ws(s, p2) == s.len() {
                    Ok(cfg)
                } else {
                    invalid()
                },
            }
        },
    }
}

/// Reading `ventoy.json` from its bytes: too large a file, and one that is
/// not UTF-8, are refused before parsing.
pub open spec fn parse_config_bytes(s: Seq<u8>) -> Result<ConfigView, VentoyConfigError> {
    if s.len() > VENTOY_JSON_MAX_SIZE {
        Err(VentoyConfigError::FileTooLarge)
    } else if !valid_utf8(s) {
        invalid()
    } else {
        parse_document(s)
    }
}

pub proof fn lemma_skip_ws(s: Seq<u8>, p: int)
    requires
        0 <= p <= s.len(),
    ensures
        p <= skip_ws(s, p) <= s.len(),
        skip_ws(s, p) < s.len() ==> !is_json_ws(s[skip_ws(s, p)]),
        skip_ws(s, skip_ws(s, p)) == skip_ws(s, p),
    decreases s.len() - p,
{
    if p < s.len() && is_json_ws(s[p]) {
        lemma_skip_ws(s, p + 1);
    }
}

pub proof fn lemma_expect(s: Seq<u8>, p: int, b: u8)
    requires
        0 <= p <= s.len(),
    ensures
        expect(s, p, b).1 is Ok ==> p < expect(s, p, b).0 <= s.len(),
{
    lemma_skip_ws(s, p);
}

pub proof fn lemma_string_body(s: Seq<u8>, p: int, acc: Seq<char>)
    requires
        0 <= p <= s.len(),
    ensures
        string_body(s, p, acc).1 is Ok ==> p < string_body(s, p, acc).0 <= s.len(),
    decreases s.len() - p,
{
    if p < s.len() {
        let b = s[p];
        if b == 0x5c && p + 1 < s.len() {
            if s[p + 1] == 0x75 {
                let (q, r) = unicode_escape(s, p + 2);
                if let Ok(c) = r {
                    lemma_string_body(s, q, acc.push(c));
                }
            } else if let Some(c) = simple_escape(s[p + 1]) {
                lemma_string_body(s, p + 2, acc.push(c));
            }
        } else if b != 0x22 && b != 0x5c && 0x20 <= b < 0x80 {
            lemma_string_body(s, p + 1, acc.push(b as char));
        } else if b >= 0x80 {
            if let Some((c, n)) = utf8_char_at(s, p) {
                if n >= 1 && p + n <= s.len() {
                    lemma_string_body(s, p + n, acc.push(c));
                }
            }
        }
    }
}

pub proof fn lemma_parse_string(s: Seq<u8>, p: int)
    requires
        0 <= p <= s.len(),
    ensures
        parse_string(s, p).1 is Ok ==> p < parse_string(s, p).0 <= s.len(),
{
    lemma_skip_ws(s, p);
    lemma_expect(s, skip_ws(s, p), 0x22);
    let (q, r) = expect(s, skip_ws(s, p), 0x22);
    if r is Ok {
        lemma_string_body(s, q, Seq::empty());
    }
}

} // verus!
