//! The boot menu's rules: which image is selected first, how long the menu
//! waits, how entries are labelled, and the plugin choice dialogs.
//!
//! Drawing and reading keys are the caller's part; a dialog is driven by
//! handing each key to [`plugin_choice_step`].

use crate::text::{chars_of, last_index_of, string_from_chars};
use vstd::prelude::*;

verus! {

/// A 1-based plugin choice that names an entry (`0` meaning none).
pub open spec fn valid_choice(autosel: Option<usize>, count: usize) -> Option<usize> {
    match autosel {
        Some(c) => if c <= count { Some(c) } else { None },
        None => None,
    }
}

/// The configured choice when it names an entry or none.
pub fn valid_plugin_choice(autosel: Option<usize>, count: usize) -> (r: Option<usize>)
    ensures
        r == valid_choice(autosel, count),
{
    match autosel {
        Some(choice) => if choice <= count { Some(choice) } else { None },
        None => None,
    }
}

/// The dialog is shown when there is something to choose, unless a valid
/// choice was configured without a timeout.
pub fn should_prompt_for_plugin_choice(autosel: Option<usize>, timeout: Option<u32>, count: usize) -> (r: bool)
    ensures
        r == (count > 0 && !(valid_choice(autosel, count) is Some && timeout is None)),
{
    count > 0 && !(valid_plugin_choice(autosel, count).is_some() && timeout.is_none())
}

/// The entry first highlighted: the configured choice, else the first
/// entry, never past the last.
pub fn default_plugin_choice(autosel: Option<usize>, count: usize) -> (r: usize)
    ensures
        r == (match valid_choice(autosel, count) {
            Some(c) => c,
            None => if 1 <= count { 1 } else { count },
        }),
        r <= count,
{
    let choice = match valid_plugin_choice(autosel, count) {
        Some(c) => c,
        None => 1,
    };
    if choice < count { choice } else { count }
}

/// A positive configured timeout, in seconds; none otherwise.
pub fn plugin_choice_timeout(timeout: Option<u32>) -> (r: Option<u64>)
    ensures
        r == (match timeout {
            Some(s) => if s > 0 { Some(s as u64) } else { None },
            None => None,
        }),
{
    match timeout {
        Some(seconds) => if seconds > 0 { Some(seconds as u64) } else { None },
        None => None,
    }
}

/// A key read by a menu.
#[derive(Debug, Clone, Copy, PartialEq, Eq, Structural)]
pub enum MenuInput {
    Up,
    Down,
    Home,
    End,
    PageUp,
    PageDown,
    Enter,
    Escape,
    Char(char),
    Other,
}

/// What a plugin choice dialog does after a key.
#[derive(Debug, Clone, Copy, PartialEq, Eq, Structural)]
pub enum ChoiceStep {
    /// Stay open with this entry highlighted.
    Highlight(usize),
    /// Close, choosing this entry (`0` for none).
    Choose(usize),
    /// Close without choosing.
    Cancel,
}

/// The dialog over entries `0` (none) to `path_count`: the arrows move and
/// wrap around, Home and Page Up go to the top, End and Page Down to the
/// bottom, a digit jumps to that entry when it exists, Enter chooses and
/// Escape cancels.
pub open spec fn choice_step(selected: usize, path_count: usize, input: MenuInput) -> ChoiceStep {
    match input {
        MenuInput::Up => ChoiceStep::Highlight(if selected == 0 { path_count } else { (selected - 1) as usize }),
        MenuInput::Down => ChoiceStep::Highlight(((selected + 1) % (path_count + 1)) as usize),
        MenuInput::Home | MenuInput::PageUp => ChoiceStep::Highlight(0),
        MenuInput::End | MenuInput::PageDown => ChoiceStep::Highlight(path_count),
        MenuInput::Enter => ChoiceStep::Choose(selected),
        MenuInput::Escape => ChoiceStep::Cancel,
        MenuInput::Char(c) => if '0' <= c <= '9' && (c as u32 - '0' as u32) <= path_count {
            ChoiceStep::Highlight((c as u32 - '0' as u32) as usize)
        } else {
            ChoiceStep::Highlight(selected)
        },
        MenuInput::Other => ChoiceStep::Highlight(selected),
    }
}

/// Moves a plugin choice dialog on by one key. The highlight never leaves
/// the entries.
pub fn plugin_choice_step(selected: usize, path_count: usize, input: MenuInput) -> (r: ChoiceStep)
    requires
        selected <= path_count < usize::MAX,
    ensures
        r == choice_step(selected, path_count, input),
        r matches ChoiceStep::Highlight(s) ==> s <= path_count,
        r matches ChoiceStep::Choose(s) ==> s <= path_count,
{
    match input {
        MenuInput::Up => ChoiceStep::Highlight(if selected == 0 { path_count } else { selected - 1 }),
        MenuInput::Down => ChoiceStep::Highlight((selected + 1) % (path_count + 1)),
        MenuInput::Home | MenuInput::PageUp => ChoiceStep::Highlight(0),
        MenuInput::End | MenuInput::PageDown => ChoiceStep::Highlight(path_count),
        MenuInput::Enter => ChoiceStep::Choose(selected),
        MenuInput::Escape => ChoiceStep::Cancel,
        MenuInput::Char(c) => {
            if '0' <= c && c <= '9' {
                let digit = (c as u32 - '0' as u32) as usize;
                if digit <= path_count {
                    return ChoiceStep::Highlight(digit);
                }
            }
            ChoiceStep::Highlight(selected)
        },
        MenuInput::Other => ChoiceStep::Highlight(selected),
    }
}

/// The first image marked as Ventoy's default, else the first image.
pub open spec fn first_default(defaults: Seq<bool>, from: int) -> int
    decreases defaults.len() - from,
{
    if from < 0 || from >= defaults.len() {
        0
    } else if defaults[from] {
        from
    } else {
        first_default(defaults, from + 1)
    }
}

/// Which image the menu starts on, given which images are marked default.
pub fn default_menu_selection(defaults: &[bool]) -> (r: usize)
    ensures
        r == first_default(defaults@, 0),
        defaults@.len() > 0 ==> r < defaults@.len(),
{
    let mut i: usize = 0;
    while i < defaults.len()
        invariant
            i <= defaults@.len(),
            first_default(defaults@, 0) == first_default(defaults@, i as int),
        decreases defaults@.len() - i,
    {
        if defaults[i] {
            return i;
        }
        i += 1;
    }
    0
}

/// The first configured timeout among the images.
pub open spec fn first_timeout(timeouts: Seq<Option<u32>>, from: int) -> Option<u32>
    decreases timeouts.len() - from,
{
    if from < 0 || from >= timeouts.len() {
        None
    } else if timeouts[from] is Some {
        timeouts[from]
    } else {
        first_timeout(timeouts, from + 1)
    }
}

/// How long the menu waits before booting: the selected image's timeout,
/// else the first one any image has.
pub fn menu_timeout_for_selection(timeouts: &[Option<u32>], default_selection: usize) -> (r: Option<u32>)
    ensures
        r == (if default_selection < timeouts@.len() && timeouts@[default_selection as int] is Some {
            timeouts@[default_selection as int]
        } else {
            first_timeout(timeouts@, 0)
        }),
{
    if default_selection < timeouts.len() {
        if let Some(t) = timeouts[default_selection] {
            return Some(t);
        }
    }
    let mut i: usize = 0;
    while i < timeouts.len()
        invariant
            i <= timeouts@.len(),
            first_timeout(timeouts@, 0) == first_timeout(timeouts@, i as int),
            !(default_selection < timeouts@.len() && timeouts@[default_selection as int] is Some),
        decreases timeouts@.len() - i,
    {
        if timeouts[i].is_some() {
            return timeouts[i];
        }
        i += 1;
    }
    None
}

/// The last `/`-separated part of a path.
pub open spec fn file_name(path: Seq<char>) -> Seq<char> {
    path.skip(last_index_of(path, '/') + 1)
}

/// The file name shown for an image.
pub fn file_name_of(path: &str) -> (r: String)
    ensures
        r@ == file_name(path@),
{
    let chars = chars_of(path);
    let mut i = chars.len();
    assert(chars@.take(i as int) =~= chars@);
    while i > 0 && chars[i - 1] != '/'
        invariant
            i <= chars@.len(),
            last_index_of(chars@, '/') == last_index_of(chars@.take(i as int), '/'),
        decreases i,
    {
        assert(chars@.take(i as int).drop_last() =~= chars@.take(i - 1));
        i -= 1;
    }
    if i > 0 {
        assert(last_index_of(chars@.take(i as int), '/') == i - 1);
    }
    let tail = vstd::slice::slice_subrange(chars.as_slice(), i, chars.len());
    assert(tail@ =~= chars@.skip(i as int));
    string_from_chars(tail)
}

/// How many of the paths end in the file name `name`.
pub open spec fn name_count(paths: Seq<Seq<char>>, name: Seq<char>) -> nat
    decreases paths.len(),
{
    if paths.len() == 0 {
        0
    } else {
        name_count(paths.drop_last(), name) + if file_name(paths.last()) == name { 1nat } else { 0nat }
    }
}

/// Whether two or more images have the file name `name`, so that their
/// entries need telling apart.
pub fn has_duplicate_filename(paths: &[String], name: &str) -> (r: bool)
    ensures
        r == (name_count(paths@.map_values(|p: String| p@), name@) >= 2),
{
    let ghost views = paths@.map_values(|p: String| p@);
    let mut count: usize = 0;
    let mut i: usize = 0;
    assert(views.take(0) =~= Seq::<Seq<char>>::empty());
    while i < paths.len()
        invariant
            i <= paths@.len(),
            views == paths@.map_values(|p: String| p@),
            count == name_count(views.take(i as int), name@),
            count < 2,
        decreases paths@.len() - i,
    {
        let file = file_name_of(paths[i].as_str());
        let same = crate::text::chars_equal(chars_of(file.as_str()).as_slice(), name);
        assert(views.take(i + 1).drop_last() =~= views.take(i as int));
        assert(views.take(i + 1).last() == paths@[i as int]@);
        if same {
            count += 1;
        }
        i += 1;
        if count >= 2 {
            assert(name_count(views, name@) >= name_count(views.take(i as int), name@)) by {
                lemma_name_count_prefix(views, name@, i as int);
            }
            return true;
        }
    }
    assert(views.take(i as int) =~= views);
    false
}

proof fn lemma_name_count_prefix(paths: Seq<Seq<char>>, name: Seq<char>, k: int)
    requires
        0 <= k <= paths.len(),
    ensures
        name_count(paths, name) >= name_count(paths.take(k), name),
    decreases paths.len(),
{
    if k < paths.len() {
        assert(paths.drop_last().take(k) =~= paths.take(k));
        lemma_name_count_prefix(paths.drop_last(), name, k);
    } else {
        assert(paths.take(k) =~= paths);
    }
}

/// The decimal digits of `n`.
pub open spec fn decimal(n: nat) -> Seq<char>
    decreases n,
{
    if n < 10 {
        seq![((48 + n) as u8) as char]
    } else {
        decimal(n / 10).push(((48 + n % 10) as u8) as char)
    }
}

/// Appends the decimal digits of `n`.
fn push_decimal(out: &mut Vec<char>, n: usize)
    ensures
        final(out)@ == old(out)@ + decimal(n as nat),
    decreases n,
{
    if n >= 10 {
        push_decimal(out, n / 10);
    }
    let digit = (48 + (n % 10)) as u8;
    out.push(digit as char);
    assert(out@ =~= old(out)@ + decimal(n as nat));
}

/// The label of a menu entry: its alias when it has one, else its file name,
/// with its volume number when another image has the same file name.
pub open spec fn menu_label_of(path: Seq<char>, alias: Option<Seq<char>>, duplicate: bool, volume_index: usize) -> Seq<char> {
    match alias {
        Some(a) => a,
        None => if duplicate {
            file_name(path) + " [vol "@ + decimal(volume_index as nat) + seq![']']
        } else {
            file_name(path)
        },
    }
}

/// Labels a menu entry.
pub fn menu_label(path: &str, alias: Option<&str>, duplicate: bool, volume_index: usize) -> (r: String)
    ensures
        r@ == menu_label_of(
            path@,
            match alias {
                Some(a) => Some(a@),
                None => None,
            },
            duplicate,
            volume_index,
        ),
{
    match alias {
        Some(a) => string_from_chars(chars_of(a).as_slice()),
        None => {
            let name = file_name_of(path);
            if !duplicate {
                return name;
            }
            let mut out = chars_of(name.as_str());
            let marker = chars_of(" [vol ");
            let mut i: usize = 0;
            let ghost head = out@;
            while i < marker.len()
                invariant
                    i <= marker@.len(),
                    out@ == head + marker@.take(i as int),
                decreases marker@.len() - i,
            {
                out.push(marker[i]);
                i += 1;
                assert(out@ =~= head + marker@.take(i as int));
            }
            assert(marker@.take(i as int) =~= marker@);
            push_decimal(&mut out, volume_index);
            out.push(']');
            string_from_chars(out.as_slice())
        },
    }
}

} // verus!
