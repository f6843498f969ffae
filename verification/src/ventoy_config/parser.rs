//! Reading `ventoy.json` byte by byte, as `grammar` states it.

use super::grammar::{
    alias_members, alias_objects, byte_at, config_members, control_entry, control_members, control_objects, expect, hex_digit,
    lemma_expect, lemma_skip_ws, member_value, optional_string, parse_control, parse_document, parse_menu_alias, parse_string,
    parse_string_array, scalar_end, simple_escape, skip_items, skip_members, skip_value, skip_ws, string_body,
    string_items, unicode_escape, utf8_char_at, with_alias, ConfigView,
};
use super::{grammar, string_view, VentoyConfig, VentoyConfigError, VentoyImageListMode, VentoyMenuAlias};
use crate::text::{char_from_u32, chars_equal, decode_scalar_at, string_from_chars, utf8_valid_from};
use vstd::prelude::*;

verus! {

const QUOTE: u8 = 0x22;
const BACKSLASH: u8 = 0x5c;
const COMMA: u8 = 0x2c;
const COLON: u8 = 0x3a;
const LBRACKET: u8 = 0x5b;
const RBRACKET: u8 = 0x5d;
const LBRACE: u8 = 0x7b;
const RBRACE: u8 = 0x7d;

/// The value of the first `i` hexadecimal digits from `p`.
spec fn hex_prefix(s: Seq<u8>, p: int, i: int) -> int
    decreases i,
{
    if i <= 0 {
        0
    } else {
        hex_prefix(s, p, i - 1) * 16 + hex_digit(s[p + i - 1])->Some_0
    }
}

/// The first `i` bytes from `p` are hexadecimal digits.
spec fn hex_run(s: Seq<u8>, p: int, i: int) -> bool {
    forall|j: int| 0 <= j < i ==> p + j < s.len() && #[trigger] hex_digit(s[p + j]) is Some
}

/// Value of a hexadecimal digit.
fn hex_value(ch: u8) -> (r: Option<u32>)
    ensures
        r == hex_digit(ch),
{
    if 0x30 <= ch && ch <= 0x39 {
        Some((ch - 0x30) as u32)
    } else if 0x61 <= ch && ch <= 0x66 {
        Some((ch - 0x61 + 10) as u32)
    } else if 0x41 <= ch && ch <= 0x46 {
        Some((ch - 0x41 + 10) as u32)
    } else {
        None
    }
}

pub(super) struct JsonParser<'a> {
    pub(super) input: &'a [u8],
    pub(super) pos: usize,
}

impl<'a> JsonParser<'a> {
    pub(super) open spec fn wf(&self) -> bool {
        self.pos <= self.input@.len() <= usize::MAX
    }

    pub(super) fn new(input: &'a [u8]) -> (r: Self)
        ensures
            r.wf(),
            r.input@ == input@,
            r.pos == 0,
    {
        let _len = input.len();
        JsonParser { input, pos: 0 }
    }

    fn peek(&self) -> (r: Option<u8>)
        ensures
            r == byte_at(self.input@, self.pos as int),
    {
        if self.pos < self.input.len() {
            Some(self.input[self.pos])
        } else {
            None
        }
    }

    fn next(&mut self) -> (r: Option<u8>)
        requires
            old(self).wf(),
        ensures
            final(self).wf(),
            final(self).input@ == old(self).input@,
            r == byte_at(old(self).input@, old(self).pos as int),
            final(self).pos == old(self).pos + if r is Some { 1int } else { 0int },
    {
        let byte = self.peek()?;
        self.pos += 1;
        Some(byte)
    }

    fn consume(&mut self, expected: u8) -> (r: bool)
        requires
            old(self).wf(),
        ensures
            final(self).wf(),
            final(self).input@ == old(self).input@,
            r == (byte_at(old(self).input@, old(self).pos as int) == Some(expected)),
            final(self).pos == old(self).pos + if r { 1int } else { 0int },
    {
        if self.pos < self.input.len() && self.input[self.pos] == expected {
            self.pos += 1;
            true
        } else {
            false
        }
    }

    fn skip_ws(&mut self)
        requires
            old(self).wf(),
        ensures
            final(self).wf(),
            final(self).input@ == old(self).input@,
            final(self).pos == skip_ws(old(self).input@, old(self).pos as int),
    {
        proof {
            lemma_skip_ws(self.input@, self.pos as int);
        }
        while self.pos < self.input.len() && is_json_ws_byte(self.input[self.pos])
            invariant
                self.wf(),
                self.input@ == old(self).input@,
                old(self).pos <= self.pos,
                skip_ws(self.input@, self.pos as int) == skip_ws(old(self).input@, old(self).pos as int),
            decreases self.input@.len() - self.pos,
        {
            self.pos += 1;
        }
    }

    fn expect(&mut self, expected: u8) -> (r: Result<(), VentoyConfigError>)
        requires
            old(self).wf(),
        ensures
            final(self).wf(),
            final(self).input@ == old(self).input@,
            final(self).pos == expect(old(self).input@, old(self).pos as int, expected).0,
            r is Ok <==> expect(old(self).input@, old(self).pos as int, expected).1 is Ok,
            r is Err ==> r == expect(old(self).input@, old(self).pos as int, expected).1,
    {
        self.skip_ws();
        if self.consume(expected) {
            Ok(())
        } else {
            Err(VentoyConfigError::InvalidJson)
        }
    }

    /// The four hexadecimal digits of a `\u` escape.
    fn parse_unicode_escape(&mut self) -> (r: Result<char, VentoyConfigError>)
        requires
            old(self).wf(),
        ensures
            final(self).wf(),
            final(self).input@ == old(self).input@,
            match r {
                Ok(c) => unicode_escape(old(self).input@, old(self).pos as int) == (final(self).pos as int, Ok::<char, VentoyConfigError>(c)),
                Err(e) => unicode_escape(old(self).input@, old(self).pos as int).1 == Err::<char, VentoyConfigError>(e),
            },
    {
        let ghost s = self.input@;
        let ghost p = self.pos as int;
        let mut value: u32 = 0;
        let mut i: usize = 0;
        while i < 4
            invariant
                self.wf(),
                self.input@ == s,
                s == old(self).input@,
                p == old(self).pos,
                i <= 4,
                self.pos == p + i,
                hex_run(s, p, i as int),
                value == hex_prefix(s, p, i as int),
                value < (if i == 0 { 1int } else if i == 1 { 16int } else if i == 2 { 256int } else if i == 3 { 4096int } else { 65536int }),
            decreases 4 - i,
        {
            let ch = match self.next() {
                Some(c) => c,
                None => return Err(VentoyConfigError::InvalidJson),
            };
            let digit = match hex_value(ch) {
                Some(d) => d,
                None => {
                    assert(hex_digit(s[p + i]) is None);
                    return Err(VentoyConfigError::InvalidJson);
                },
            };
            value = value * 16 + digit;
            i += 1;
        }
        assert(hex_digit(s[p]) is Some && hex_digit(s[p + 1]) is Some && hex_digit(s[p + 2]) is Some
            && hex_digit(s[p + 3]) is Some);
        proof {
            reveal_with_fuel(hex_prefix, 5);
        }
        match char_from_u32(value) {
            Some(c) => Ok(c),
            None => Err(VentoyConfigError::InvalidJson),
        }
    }
}

/// JSON whitespace byte.
fn is_json_ws_byte(b: u8) -> (r: bool)
    ensures
        r == super::grammar::is_json_ws(b),
{
    b == 0x20 || b == 0x09 || b == 0x0a || b == 0x0c || b == 0x0d
}

impl<'a> JsonParser<'a> {
    /// The character whose UTF-8 encoding starts at the byte just read.
    fn consume_utf8_char(&mut self) -> (r: Result<char, VentoyConfigError>)
        requires
            old(self).wf(),
            1 <= old(self).pos,
        ensures
            final(self).wf(),
            final(self).input@ == old(self).input@,
            match r {
                Ok(c) => utf8_char_at(old(self).input@, old(self).pos - 1) == Some((c, final(self).pos - (old(self).pos - 1)))
                    && old(self).pos - 1 < final(self).pos,
                Err(e) => utf8_char_at(old(self).input@, old(self).pos - 1) is None && e == VentoyConfigError::InvalidJson,
            },
    {
        let start = self.pos - 1;
        if !utf8_valid_from(self.input, start) {
            return Err(VentoyConfigError::InvalidJson);
        }
        match decode_scalar_at(self.input, start) {
            Some((c, n)) => {
                self.pos = start + n;
                Ok(c)
            },
            None => Err(VentoyConfigError::InvalidJson),
        }
    }

    /// A string literal.
    #[verifier::rlimit(40)]
    fn parse_string(&mut self) -> (r: Result<Vec<char>, VentoyConfigError>)
        requires
            old(self).wf(),
        ensures
            final(self).wf(),
            final(self).input@ == old(self).input@,
            match r {
                Ok(v) => parse_string(old(self).input@, old(self).pos as int) == (final(self).pos as int, Ok::<Seq<char>, VentoyConfigError>(v@))
                    && old(self).pos < final(self).pos,
                Err(e) => parse_string(old(self).input@, old(self).pos as int).1 == Err::<Seq<char>, VentoyConfigError>(e),
            },
    {
        let ghost s = self.input@;
        let ghost outcome = parse_string(s, self.pos as int);
        proof {
            lemma_skip_ws(s, self.pos as int);
        }
        self.skip_ws();
        proof {
            lemma_expect(s, self.pos as int, QUOTE);
        }
        self.expect(QUOTE)?;
        let mut out: Vec<char> = Vec::new();
        loop
            invariant
                self.wf(),
                self.input@ == s,
                s == old(self).input@,
                outcome == parse_string(old(self).input@, old(self).pos as int),
                old(self).pos < self.pos,
                string_body(s, self.pos as int, out@) == outcome,
            decreases s.len() - self.pos,
        {
            let ch = match self.next() {
                Some(c) => c,
                None => return Err(VentoyConfigError::InvalidJson),
            };
            if ch == QUOTE {
                return Ok(out);
            } else if ch == BACKSLASH {
                let escaped = match self.next() {
                    Some(e) => e,
                    None => return Err(VentoyConfigError::InvalidJson),
                };
                if escaped == 0x75 {
                    let c = self.parse_unicode_escape()?;
                    out.push(c);
                } else {
                    let c = match escaped {
                        0x22 => '"',
                        0x5c => '\\',
                        0x2f => '/',
                        0x62 => '\u{0008}',
                        0x66 => '\u{000c}',
                        0x6e => '\n',
                        0x72 => '\r',
                        0x74 => '\t',
                        _ => return Err(VentoyConfigError::InvalidJson),
                    };
                    assert(simple_escape(escaped) == Some(c));
                    out.push(c);
                }
            } else if ch < 0x20 {
                return Err(VentoyConfigError::InvalidJson);
            } else if ch < 0x80 {
                out.push(ch as char);
            } else {
                let c = self.consume_utf8_char()?;
                out.push(c);
            }
        }
    }

    /// A string literal if one follows.
    fn parse_optional_string(&mut self) -> (r: Result<Option<Vec<char>>, VentoyConfigError>)
        requires
            old(self).wf(),
        ensures
            final(self).wf(),
            final(self).input@ == old(self).input@,
            match r {
                Ok(v) => optional_string(old(self).input@, old(self).pos as int).0 == final(self).pos
                    && optional_string(old(self).input@, old(self).pos as int).1 == Ok::<Option<Seq<char>>, VentoyConfigError>(
                        match v { Some(x) => Some(x@), None => None })
                    && old(self).pos <= final(self).pos,
                Err(e) => optional_string(old(self).input@, old(self).pos as int).1 == Err::<Option<Seq<char>>, VentoyConfigError>(e),
            },
    {
        proof {
            lemma_skip_ws(self.input@, self.pos as int);
        }
        self.skip_ws();
        if self.pos < self.input.len() && self.input[self.pos] == QUOTE {
            let v = self.parse_string()?;
            Ok(Some(v))
        } else {
            Ok(None)
        }
    }

    /// Skips one value of any kind.
    #[verifier::rlimit(40)]
    fn skip_value(&mut self) -> (r: Result<(), VentoyConfigError>)
        requires
            old(self).wf(),
        ensures
            final(self).wf(),
            final(self).input@ == old(self).input@,
            match r {
                Ok(_) => skip_value(old(self).input@, old(self).pos as int).0 == final(self).pos
                    && skip_value(old(self).input@, old(self).pos as int).1 is Ok && old(self).pos <= final(self).pos,
                Err(e) => skip_value(old(self).input@, old(self).pos as int).1 == Err::<(), VentoyConfigError>(e),
            },
        decreases old(self).input@.len() - old(self).pos,
    {
        let ghost s = self.input@;
        let ghost outcome = skip_value(s, self.pos as int);
        proof {
            lemma_skip_ws(s, self.pos as int);
        }
        self.skip_ws();
        match self.peek() {
            Some(b) if b == QUOTE => {
                self.parse_string()?;
                Ok(())
            },
            Some(b) if b == LBRACE => {
                self.expect(LBRACE)?;
                let ghost start = self.pos;
                assert(outcome == skip_members(s, start as int));
                loop
                    invariant_except_break
                        self.wf(),
                        self.input@ == s,
                        s == old(self).input@,
                        outcome == skip_value(old(self).input@, old(self).pos as int),
                        start <= self.pos,
                        old(self).pos < start,
                        skip_members(s, self.pos as int) == outcome,
                    ensures
                        self.wf(),
                        self.input@ == s,
                        s == old(self).input@,
                        outcome == skip_value(old(self).input@, old(self).pos as int),
                        old(self).pos <= self.pos,
                        outcome.0 == self.pos,
                        outcome.1 is Ok,
                    decreases s.len() - self.pos,
                {
                    proof {
                        lemma_skip_ws(s, self.pos as int);
                    }
                    self.skip_ws();
                    if self.consume(RBRACE) {
                        break;
                    }
                    self.parse_string()?;
                    proof {
                        lemma_skip_ws(s, self.pos as int);
                    }
                    self.skip_ws();
                    self.expect(COLON)?;
                    self.skip_value()?;
                    proof {
                        lemma_skip_ws(s, self.pos as int);
                    }
                    self.skip_ws();
                    if self.consume(COMMA) {
                        continue;
                    }
                    self.expect(RBRACE)?;
                    break;
                }
                Ok(())
            },
            Some(b) if b == LBRACKET => {
                self.expect(LBRACKET)?;
                let ghost start = self.pos;
                assert(outcome == skip_items(s, start as int));
                loop
                    invariant_except_break
                        self.wf(),
                        self.input@ == s,
                        s == old(self).input@,
                        outcome == skip_value(old(self).input@, old(self).pos as int),
                        start <= self.pos,
                        old(self).pos < start,
                        skip_items(s, self.pos as int) == outcome,
                    ensures
                        self.wf(),
                        self.input@ == s,
                        s == old(self).input@,
                        outcome == skip_value(old(self).input@, old(self).pos as int),
                        old(self).pos <= self.pos,
                        outcome.0 == self.pos,
                        outcome.1 is Ok,
                    decreases s.len() - self.pos,
                {
                    proof {
                        lemma_skip_ws(s, self.pos as int);
                    }
                    self.skip_ws();
                    if self.consume(RBRACKET) {
                        break;
                    }
                    self.skip_value()?;
                    proof {
                        lemma_skip_ws(s, self.pos as int);
                    }
                    self.skip_ws();
                    if self.consume(COMMA) {
                        continue;
                    }
                    self.expect(RBRACKET)?;
                    break;
                }
                Ok(())
            },
            Some(_) => {
                let ghost start = self.pos;
                while self.pos < self.input.len() && !(self.input[self.pos] == COMMA || self.input[self.pos] == RBRACE
                    || self.input[self.pos] == RBRACKET || is_json_ws_byte(self.input[self.pos]))
                    invariant
                        self.wf(),
                        self.input@ == s,
                        s == old(self).input@,
                        outcome == skip_value(old(self).input@, old(self).pos as int),
                        start <= self.pos,
                        scalar_end(s, self.pos as int) == scalar_end(s, start as int),
                    decreases s.len() - self.pos,
                {
                    self.pos += 1;
                }
                Ok(())
            },
            None => Err(VentoyConfigError::InvalidJson),
        }
    }
}

impl<'a> JsonParser<'a> {
    /// An array of strings.
    #[verifier::rlimit(80)]
    #[verifier::spinoff_prover]
    fn parse_string_array(&mut self) -> (r: Result<Vec<String>, VentoyConfigError>)
        requires
            old(self).wf(),
        ensures
            final(self).wf(),
            final(self).input@ == old(self).input@,
            match r {
                Ok(v) => parse_string_array(old(self).input@, old(self).pos as int).0 == final(self).pos
                    && parse_string_array(old(self).input@, old(self).pos as int).1 == Ok::<Seq<Seq<char>>, VentoyConfigError>(
                        v@.map_values(|x: String| string_view(x)))
                    && old(self).pos <= final(self).pos,
                Err(e) => parse_string_array(old(self).input@, old(self).pos as int).1 == Err::<Seq<Seq<char>>, VentoyConfigError>(e),
            },
    {
        let ghost s = self.input@;
        let ghost outcome = parse_string_array(s, self.pos as int);
        proof {
            lemma_skip_ws(s, self.pos as int);
        }
        let mut values: Vec<String> = Vec::new();
        self.skip_ws();
        self.expect(LBRACKET)?;
        assert(values@.map_values(|x: String| string_view(x)) =~= Seq::<Seq<char>>::empty());
        loop
            invariant_except_break
                self.wf(),
                self.input@ == s,
                s == old(self).input@,
                outcome == parse_string_array(old(self).input@, old(self).pos as int),
                old(self).pos <= self.pos,
                string_items(s, self.pos as int, values@.map_values(|x: String| string_view(x))) == outcome,
            ensures
                self.wf(),
                self.input@ == s,
                s == old(self).input@,
                outcome == parse_string_array(old(self).input@, old(self).pos as int),
                old(self).pos <= self.pos,
                outcome.0 == self.pos,
                outcome.1 == Ok::<Seq<Seq<char>>, VentoyConfigError>(values@.map_values(|x: String| string_view(x))),
            decreases s.len() - self.pos,
        {
            proof {
                lemma_skip_ws(s, self.pos as int);
            }
            self.skip_ws();
            if self.consume(RBRACKET) {
                break;
            }
            let value = self.parse_string()?;
            let ghost before = values@.map_values(|x: String| string_view(x));
            values.push(string_from_chars(value.as_slice()));
            assert(values@.map_values(|x: String| string_view(x)) =~= before.push(value@));
            proof {
                lemma_skip_ws(s, self.pos as int);
            }
            self.skip_ws();
            if self.consume(COMMA) {
                continue;
            }
            self.expect(RBRACKET)?;
            break;
        }
        Ok(values)
    }

    /// The members of one `control` object.
    #[verifier::rlimit(40)]
    fn parse_control_object(&mut self, config: &mut VentoyConfig) -> (r: Result<(), VentoyConfigError>)
        requires
            old(self).wf(),
        ensures
            final(self).wf(),
            final(self).input@ == old(self).input@,
            match r {
                Ok(_) => control_members(old(self).input@, old(self).pos as int, old(config)@).0 == final(self).pos
                    && control_members(old(self).input@, old(self).pos as int, old(config)@).1 == Ok::<ConfigView, VentoyConfigError>(final(config)@)
                    && old(self).pos <= final(self).pos,
                Err(e) => control_members(old(self).input@, old(self).pos as int, old(config)@).1 == Err::<ConfigView, VentoyConfigError>(e),
            },
    {
        let ghost s = self.input@;
        let ghost outcome = control_members(s, self.pos as int, config@);
        loop
            invariant_except_break
                self.wf(),
                self.input@ == s,
                s == old(self).input@,
                outcome == control_members(old(self).input@, old(self).pos as int, old(config)@),
                old(self).pos <= self.pos,
                control_members(s, self.pos as int, config@) == outcome,
            ensures
                self.wf(),
                self.input@ == s,
                s == old(self).input@,
                outcome == control_members(old(self).input@, old(self).pos as int, old(config)@),
                old(self).pos <= self.pos,
                outcome.0 == self.pos,
                outcome.1 == Ok::<ConfigView, VentoyConfigError>(config@),
            decreases s.len() - self.pos,
        {
            proof {
                lemma_skip_ws(s, self.pos as int);
            }
            self.skip_ws();
            if self.consume(RBRACE) {
                break;
            }
            let key = self.parse_string()?;
            proof {
                lemma_skip_ws(s, self.pos as int);
            }
            self.skip_ws();
            self.expect(COLON)?;
            self.parse_control_entry(key.as_slice(), config)?;
            proof {
                lemma_skip_ws(s, self.pos as int);
            }
            self.skip_ws();
            if self.consume(COMMA) {
                continue;
            }
            self.expect(RBRACE)?;
            break;
        }
        Ok(())
    }

    /// The value of one `control` setting.
    fn parse_control_entry(&mut self, key: &[char], config: &mut VentoyConfig) -> (r: Result<(), VentoyConfigError>)
        requires
            old(self).wf(),
        ensures
            final(self).wf(),
            final(self).input@ == old(self).input@,
            match r {
                Ok(_) => control_entry(old(self).input@, old(self).pos as int, key@, old(config)@).0 == final(self).pos
                    && control_entry(old(self).input@, old(self).pos as int, key@, old(config)@).1 == Ok::<ConfigView, VentoyConfigError>(final(config)@)
                    && old(self).pos <= final(self).pos,
                Err(e) => control_entry(old(self).input@, old(self).pos as int, key@, old(config)@).1 == Err::<ConfigView, VentoyConfigError>(e),
            },
    {
        proof {
            reveal(control_entry);
        }
        match self.parse_optional_string()? {
            Some(value) => {
                let enabled = chars_equal(value.as_slice(), "1");
                config.filters.set_flag(key, enabled);
                if chars_equal(key, "VTOY_DEFAULT_SEARCH_ROOT") && value.len() > 0 {
                    config.default_search_root = Some(string_from_chars(value.as_slice()));
                }
            },
            None => {
                self.skip_value()?;
            },
        }
        Ok(())
    }

    /// The `control` plugin: an array of objects of string settings.
    #[verifier::rlimit(40)]
    fn parse_control(&mut self, config: &mut VentoyConfig) -> (r: Result<(), VentoyConfigError>)
        requires
            old(self).wf(),
        ensures
            final(self).wf(),
            final(self).input@ == old(self).input@,
            match r {
                Ok(_) => parse_control(old(self).input@, old(self).pos as int, old(config)@).0 == final(self).pos
                    && parse_control(old(self).input@, old(self).pos as int, old(config)@).1 == Ok::<ConfigView, VentoyConfigError>(final(config)@)
                    && old(self).pos <= final(self).pos,
                Err(e) => parse_control(old(self).input@, old(self).pos as int, old(config)@).1 == Err::<ConfigView, VentoyConfigError>(e),
            },
    {
        let ghost s = self.input@;
        let ghost outcome = parse_control(s, self.pos as int, config@);
        proof {
            lemma_skip_ws(s, self.pos as int);
        }
        self.skip_ws();
        self.expect(LBRACKET)?;
        loop
            invariant_except_break
                self.wf(),
                self.input@ == s,
                s == old(self).input@,
                outcome == parse_control(old(self).input@, old(self).pos as int, old(config)@),
                old(self).pos <= self.pos,
                control_objects(s, self.pos as int, config@) == outcome,
            ensures
                self.wf(),
                self.input@ == s,
                s == old(self).input@,
                outcome == parse_control(old(self).input@, old(self).pos as int, old(config)@),
                old(self).pos <= self.pos,
                outcome.0 == self.pos,
                outcome.1 == Ok::<ConfigView, VentoyConfigError>(config@),
            decreases s.len() - self.pos,
        {
            proof {
                lemma_skip_ws(s, self.pos as int);
            }
            self.skip_ws();
            if self.consume(RBRACKET) {
                break;
            }
            self.expect(LBRACE)?;
            self.parse_control_object(config)?;
            proof {
                lemma_skip_ws(s, self.pos as int);
            }
            self.skip_ws();
            if self.consume(COMMA) {
                continue;
            }
            self.expect(RBRACKET)?;
            break;
        }
        Ok(())
    }

    /// The members of one `menu_alias` object: its image and alias, when
    /// given as strings.
    #[verifier::rlimit(40)]
    fn parse_alias_object(&mut self) -> (r: Result<(Option<Vec<char>>, Option<Vec<char>>), VentoyConfigError>)
        requires
            old(self).wf(),
        ensures
            final(self).wf(),
            final(self).input@ == old(self).input@,
            match r {
                Ok((image, alias)) => alias_members(old(self).input@, old(self).pos as int, None, None).0 == final(self).pos
                    && alias_members(old(self).input@, old(self).pos as int, None, None).1
                        == Ok::<(Option<Seq<char>>, Option<Seq<char>>), VentoyConfigError>((
                            match image { Some(x) => Some(x@), None => None },
                            match alias { Some(x) => Some(x@), None => None },
                        ))
                    && old(self).pos <= final(self).pos,
                Err(e) => alias_members(old(self).input@, old(self).pos as int, None, None).1
                    == Err::<(Option<Seq<char>>, Option<Seq<char>>), VentoyConfigError>(e),
            },
    {
        proof {
            reveal(alias_members);
        }
        let ghost s = self.input@;
        let ghost outcome = alias_members(s, self.pos as int, None, None);
        let mut image: Option<Vec<char>> = None;
        let mut alias: Option<Vec<char>> = None;
        loop
            invariant_except_break
                self.wf(),
                self.input@ == s,
                s == old(self).input@,
                outcome == alias_members(old(self).input@, old(self).pos as int, None, None),
                old(self).pos <= self.pos,
                alias_members(s, self.pos as int, match image { Some(x) => Some(x@), None => None },
                    match alias { Some(x) => Some(x@), None => None }) == outcome,
            ensures
                self.wf(),
                self.input@ == s,
                s == old(self).input@,
                outcome == alias_members(old(self).input@, old(self).pos as int, None, None),
                old(self).pos <= self.pos,
                outcome.0 == self.pos,
                outcome.1 == Ok::<(Option<Seq<char>>, Option<Seq<char>>), VentoyConfigError>((
                    match image { Some(x) => Some(x@), None => None },
                    match alias { Some(x) => Some(x@), None => None },
                )),
            decreases s.len() - self.pos,
        {
            proof {
                reveal(alias_members);
            }
            proof {
                lemma_skip_ws(s, self.pos as int);
            }
            self.skip_ws();
            if self.consume(RBRACE) {
                break;
            }
            let key = self.parse_string()?;
            proof {
                lemma_skip_ws(s, self.pos as int);
            }
            self.skip_ws();
            self.expect(COLON)?;
            match self.parse_optional_string()? {
                Some(value) => {
                    if chars_equal(key.as_slice(), "image") {
                        image = Some(value);
                    } else if chars_equal(key.as_slice(), "alias") {
                        alias = Some(value);
                    }
                },
                None => {
                    self.skip_value()?;
                },
            }
            proof {
                lemma_skip_ws(s, self.pos as int);
            }
            self.skip_ws();
            if self.consume(COMMA) {
                continue;
            }
            self.expect(RBRACE)?;
            break;
        }
        Ok((image, alias))
    }

    /// The `menu_alias` plugin: an array of objects naming an image and its
    /// alias.
    #[verifier::rlimit(40)]
    fn parse_menu_alias(&mut self, config: &mut VentoyConfig) -> (r: Result<(), VentoyConfigError>)
        requires
            old(self).wf(),
        ensures
            final(self).wf(),
            final(self).input@ == old(self).input@,
            match r {
                Ok(_) => parse_menu_alias(old(self).input@, old(self).pos as int, old(config)@).0 == final(self).pos
                    && parse_menu_alias(old(self).input@, old(self).pos as int, old(config)@).1 == Ok::<ConfigView, VentoyConfigError>(final(config)@)
                    && old(self).pos <= final(self).pos,
                Err(e) => parse_menu_alias(old(self).input@, old(self).pos as int, old(config)@).1 == Err::<ConfigView, VentoyConfigError>(e),
            },
    {
        let ghost s = self.input@;
        let ghost outcome = parse_menu_alias(s, self.pos as int, config@);
        proof {
            lemma_skip_ws(s, self.pos as int);
        }
        self.skip_ws();
        self.expect(LBRACKET)?;
        loop
            invariant_except_break
                self.wf(),
                self.input@ == s,
                s == old(self).input@,
                outcome == parse_menu_alias(old(self).input@, old(self).pos as int, old(config)@),
                old(self).pos <= self.pos,
                alias_objects(s, self.pos as int, config@) == outcome,
            ensures
                self.wf(),
                self.input@ == s,
                s == old(self).input@,
                outcome == parse_menu_alias(old(self).input@, old(self).pos as int, old(config)@),
                old(self).pos <= self.pos,
                outcome.0 == self.pos,
                outcome.1 == Ok::<ConfigView, VentoyConfigError>(config@),
            decreases s.len() - self.pos,
        {
            proof {
                lemma_skip_ws(s, self.pos as int);
            }
            self.skip_ws();
            if self.consume(RBRACKET) {
                break;
            }
            self.expect(LBRACE)?;
            let ghost before = config@;
            let (image, alias) = self.parse_alias_object()?;
            match (image, alias) {
                (Some(image), Some(alias)) => {
                    let entry = VentoyMenuAlias { image: string_from_chars(image.as_slice()), alias: string_from_chars(alias.as_slice()) };
                    config.menu_aliases.push(entry);
                    assert(config@.menu_aliases =~= before.menu_aliases.push((image@, alias@)));
                },
                _ => {},
            }
            proof {
                lemma_skip_ws(s, self.pos as int);
            }
            self.skip_ws();
            if self.consume(COMMA) {
                continue;
            }
            self.expect(RBRACKET)?;
            break;
        }
        Ok(())
    }

    /// The value of the top-level member `key`.
    fn parse_member_value(&mut self, key: &[char], config: &mut VentoyConfig) -> (r: Result<(), VentoyConfigError>)
        requires
            old(self).wf(),
        ensures
            final(self).wf(),
            final(self).input@ == old(self).input@,
            match r {
                Ok(_) => member_value(old(self).input@, old(self).pos as int, key@, old(config)@).0 == final(self).pos
                    && member_value(old(self).input@, old(self).pos as int, key@, old(config)@).1 == Ok::<ConfigView, VentoyConfigError>(final(config)@)
                    && old(self).pos <= final(self).pos,
                Err(e) => member_value(old(self).input@, old(self).pos as int, key@, old(config)@).1 == Err::<ConfigView, VentoyConfigError>(e),
            },
    {
        proof {
            reveal(member_value);
        }
        if chars_equal(key, "control") {
            self.parse_control(config)
        } else if chars_equal(key, "menu_alias") {
            self.parse_menu_alias(config)
        } else if chars_equal(key, "image_list") || chars_equal(key, "image_blacklist") {
            let mode = if chars_equal(key, "image_list") { VentoyImageListMode::Allow } else { VentoyImageListMode::Deny };
            config.image_list_mode = mode;
            let list = self.parse_string_array()?;
            config.image_list = list;
            Ok(())
        } else {
            self.skip_value()
        }
    }

    /// A whole `ventoy.json` document.
    #[verifier::rlimit(40)]
    pub(super) fn parse_config(&mut self) -> (r: Result<VentoyConfig, VentoyConfigError>)
        requires
            old(self).wf(),
            old(self).pos == 0,
        ensures
            match r {
                Ok(cfg) => parse_document(old(self).input@) == Ok::<ConfigView, VentoyConfigError>(cfg@),
                Err(e) => parse_document(old(self).input@) == Err::<ConfigView, VentoyConfigError>(e),
            },
    {
        let ghost s = self.input@;
        let mut config = VentoyConfig::default();
        proof {
            lemma_skip_ws(s, 0);
        }
        self.skip_ws();
        self.expect(LBRACE)?;
        let ghost start = self.pos;
        let ghost outcome = config_members(s, self.pos as int, config@);
        assert(config@ == grammar::empty_config());
        loop
            invariant_except_break
                self.wf(),
                self.input@ == s,
                s == old(self).input@,
                expect(s, skip_ws(s, 0), LBRACE).0 == start,
                expect(s, skip_ws(s, 0), LBRACE).1 is Ok,
                outcome == config_members(s, start as int, grammar::empty_config()),
                config_members(s, self.pos as int, config@) == outcome,
            ensures
                self.wf(),
                self.input@ == s,
                s == old(self).input@,
                outcome.0 == self.pos,
                outcome.1 == Ok::<ConfigView, VentoyConfigError>(config@),
            decreases s.len() - self.pos,
        {
            proof {
                lemma_skip_ws(s, self.pos as int);
            }
            self.skip_ws();
            if self.consume(RBRACE) {
                break;
            }
            let key = self.parse_string()?;
            proof {
                lemma_skip_ws(s, self.pos as int);
            }
            self.skip_ws();
            self.expect(COLON)?;
            self.parse_member_value(key.as_slice(), &mut config)?;
            proof {
                lemma_skip_ws(s, self.pos as int);
            }
            self.skip_ws();
            if self.consume(COMMA) {
                continue;
            }
            self.expect(RBRACE)?;
            break;
        }
        self.skip_ws();
        if self.pos == self.input.len() {
            Ok(config)
        } else {
            Err(VentoyConfigError::InvalidJson)
        }
    }
}

} // verus!