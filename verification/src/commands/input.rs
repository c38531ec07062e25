//! Keyboard and pointer input: how a key name and its modifiers become a key
//! event, what the page's answer to a click or fill probe means, the page
//! scripts that ask those questions, and the messages each action reports.
use crate::text::{
    chars_of, concat2, owned, push_str, split_fold, split_on, split_pieces, str_eq, string_from_chars,
    to_lowercase, to_lowercase_spec,
};
use vstd::prelude::*;

verus! {

// ---------------------------------------------------------------------
// Keys
// ---------------------------------------------------------------------

/// A key as a key event names it: its `key` value, its physical `code`, and
/// its Windows virtual key code.
pub struct KeyInfo {
    pub key: String,
    pub code: String,
    pub key_code: i32,
}

/// The keys known by name, looked up by their lowercase spelling.
pub open spec fn named_key(lower: Seq<char>) -> Option<(Seq<char>, Seq<char>, i32)> {
    if lower == "enter"@ || lower == "return"@ {
        Some(("Enter"@, "Enter"@, 13i32))
    } else if lower == "tab"@ {
        Some(("Tab"@, "Tab"@, 9i32))
    } else if lower == "escape"@ || lower == "esc"@ {
        Some(("Escape"@, "Escape"@, 27i32))
    } else if lower == "backspace"@ {
        Some(("Backspace"@, "Backspace"@, 8i32))
    } else if lower == "delete"@ {
        Some(("Delete"@, "Delete"@, 46i32))
    } else if lower == "space"@ || lower == " "@ {
        Some((" "@, "Space"@, 32i32))
    } else if lower == "arrowup"@ || lower == "up"@ {
        Some(("ArrowUp"@, "ArrowUp"@, 38i32))
    } else if lower == "arrowdown"@ || lower == "down"@ {
        Some(("ArrowDown"@, "ArrowDown"@, 40i32))
    } else if lower == "arrowleft"@ || lower == "left"@ {
        Some(("ArrowLeft"@, "ArrowLeft"@, 37i32))
    } else if lower == "arrowright"@ || lower == "right"@ {
        Some(("ArrowRight"@, "ArrowRight"@, 39i32))
    } else if lower == "home"@ {
        Some(("Home"@, "Home"@, 36i32))
    } else if lower == "end"@ {
        Some(("End"@, "End"@, 35i32))
    } else if lower == "pageup"@ {
        Some(("PageUp"@, "PageUp"@, 33i32))
    } else if lower == "pagedown"@ {
        Some(("PageDown"@, "PageDown"@, 34i32))
    } else if lower == "a"@ {
        Some(("a"@, "KeyA"@, 65i32))
    } else if lower == "b"@ {
        Some(("b"@, "KeyB"@, 66i32))
    } else if lower == "c"@ {
        Some(("c"@, "KeyC"@, 67i32))
    } else if lower == "v"@ {
        Some(("v"@, "KeyV"@, 86i32))
    } else if lower == "x"@ {
        Some(("x"@, "KeyX"@, 88i32))
    } else if lower == "z"@ {
        Some(("z"@, "KeyZ"@, 90i32))
    } else if lower == "f5"@ {
        Some(("F5"@, "F5"@, 116i32))
    } else {
        None
    }
}

/// The key event for a key name: a named key (in any case), or else the name
/// itself as both key and code with virtual key code 0.
pub open spec fn key_info_spec(key: Seq<char>) -> (Seq<char>, Seq<char>, i32) {
    match named_key(to_lowercase_spec(key)) {
        Some(t) => t,
        None => (key, key, 0i32),
    }
}

fn key_triple(key: &'static str, code: &'static str, key_code: i32) -> (r: KeyInfo)
    ensures
        r.key@ == key@,
        r.code@ == code@,
        r.key_code == key_code,
{
    KeyInfo { key: owned(key), code: owned(code), key_code }
}

/// Maps a key name to its key event.
pub fn map_key(key: &str) -> (r: KeyInfo)
    ensures
        (r.key@, r.code@, r.key_code) == key_info_spec(key@),
{
    let lower_owned = to_lowercase(key);
    let lower = lower_owned.as_str();
    if str_eq(lower, "enter") || str_eq(lower, "return") {
        key_triple("Enter", "Enter", 13)
    } else if str_eq(lower, "tab") {
        key_triple("Tab", "Tab", 9)
    } else if str_eq(lower, "escape") || str_eq(lower, "esc") {
        key_triple("Escape", "Escape", 27)
    } else if str_eq(lower, "backspace") {
        key_triple("Backspace", "Backspace", 8)
    } else if str_eq(lower, "delete") {
        key_triple("Delete", "Delete", 46)
    } else if str_eq(lower, "space") || str_eq(lower, " ") {
        key_triple(" ", "Space", 32)
    } else if str_eq(lower, "arrowup") || str_eq(lower, "up") {
        key_triple("ArrowUp", "ArrowUp", 38)
    } else if str_eq(lower, "arrowdown") || str_eq(lower, "down") {
        key_triple("ArrowDown", "ArrowDown", 40)
    } else if str_eq(lower, "arrowleft") || str_eq(lower, "left") {
        key_triple("ArrowLeft", "ArrowLeft", 37)
    } else if str_eq(lower, "arrowright") || str_eq(lower, "right") {
        key_triple("ArrowRight", "ArrowRight", 39)
    } else if str_eq(lower, "home") {
        key_triple("Home", "Home", 36)
    } else if str_eq(lower, "end") {
        key_triple("End", "End", 35)
    } else if str_eq(lower, "pageup") {
        key_triple("PageUp", "PageUp", 33)
    } else if str_eq(lower, "pagedown") {
        key_triple("PageDown", "PageDown", 34)
    } else if str_eq(lower, "a") {
        key_triple("a", "KeyA", 65)
    } else if str_eq(lower, "b") {
        key_triple("b", "KeyB", 66)
    } else if str_eq(lower, "c") {
        key_triple("c", "KeyC", 67)
    } else if str_eq(lower, "v") {
        key_triple("v", "KeyV", 86)
    } else if str_eq(lower, "x") {
        key_triple("x", "KeyX", 88)
    } else if str_eq(lower, "z") {
        key_triple("z", "KeyZ", 90)
    } else if str_eq(lower, "f5") {
        key_triple("F5", "F5", 116)
    } else {
        KeyInfo { key: owned(key), code: owned(key), key_code: 0 }
    }
}

/// The modifier bit a modifier name sets, by its lowercase spelling:
/// Alt 1, Control 2, Meta 4, Shift 8.
pub open spec fn modifier_bit(lower: Seq<char>) -> Option<i32> {
    if lower == "alt"@ {
        Some(1i32)
    } else if lower == "ctrl"@ || lower == "control"@ {
        Some(2i32)
    } else if lower == "meta"@ || lower == "cmd"@ || lower == "command"@ {
        Some(4i32)
    } else if lower == "shift"@ {
        Some(8i32)
    } else {
        None
    }
}

/// The modifier mask of the first `n` parts of a key combination, or the
/// error for the first part that names no modifier.
pub open spec fn modifiers_fold(parts: Seq<Seq<char>>, n: nat) -> Result<i32, Seq<char>>
    decreases n,
{
    if n == 0 {
        Ok(0i32)
    } else {
        match modifiers_fold(parts, (n - 1) as nat) {
            Err(e) => Err(e),
            Ok(m) => match modifier_bit(to_lowercase_spec(parts[n - 1])) {
                Some(b) => Ok(m | b),
                None => Err("Unknown modifier: "@ + parts[n - 1]),
            },
        }
    }
}

/// Once a part names no modifier, the error stays for every longer prefix.
pub proof fn lemma_modifiers_error_sticks(parts: Seq<Seq<char>>, j: nat, k: nat)
    requires
        j <= k,
        modifiers_fold(parts, j) is Err,
    ensures
        modifiers_fold(parts, k) == modifiers_fold(parts, j),
    decreases k - j,
{
    if j < k {
        lemma_modifiers_error_sticks(parts, j, (k - 1) as nat);
    }
}

/// A key combination: the modifier mask and the key event of its last part.
pub struct KeyCombo {
    pub modifiers: i32,
    pub key: KeyInfo,
}

/// What a key combination such as `Ctrl+Shift+a` means: the parts before the
/// last `+` are modifiers, the last part is the key.
pub open spec fn key_combo_spec(key: Seq<char>) -> Result<(i32, (Seq<char>, Seq<char>, i32)), Seq<char>> {
    let parts = split_pieces(key, '+');
    match modifiers_fold(parts, (parts.len() - 1) as nat) {
        Err(e) => Err(e),
        Ok(m) => Ok((m, key_info_spec(parts.last()))),
    }
}

pub proof fn lemma_split_pieces_nonempty(s: Seq<char>, sep: char)
    ensures
        split_pieces(s, sep).len() >= 1,
{
}

proof fn lemma_split_fold_no_sep(p: Seq<char>, sep: char)
    requires
        !p.contains(sep),
    ensures
        split_fold(p, sep) == (Seq::<Seq<char>>::empty(), p),
    decreases p.len(),
{
    if p.len() > 0 {
        assert(!p.drop_last().contains(sep)) by {
            assert forall|i: int| 0 <= i < p.drop_last().len() implies p.drop_last()[i] != sep by {
                assert(p.drop_last()[i] == p[i]);
            }
        }
        lemma_split_fold_no_sep(p.drop_last(), sep);
        assert(p.last() == p[p.len() - 1]);
        assert(p.drop_last().push(p.last()) =~= p);
    }
}

/// Splitting `p`, a separator and `rest` gives `p` and then the pieces of
/// `rest`, when `p` holds no separator.
proof fn lemma_split_fold_after(p: Seq<char>, sep: char, rest: Seq<char>)
    requires
        !p.contains(sep),
    ensures
        split_fold(p + seq![sep] + rest, sep) == (seq![p] + split_fold(rest, sep).0, split_fold(rest, sep).1),
    decreases rest.len(),
{
    let s = p + seq![sep] + rest;
    if rest.len() == 0 {
        assert(s.drop_last() =~= p);
        lemma_split_fold_no_sep(p, sep);
        assert(Seq::<Seq<char>>::empty().push(p) =~= seq![p] + Seq::<Seq<char>>::empty());
    } else {
        assert(s.drop_last() =~= p + seq![sep] + rest.drop_last());
        lemma_split_fold_after(p, sep, rest.drop_last());
        let (d, c) = split_fold(rest.drop_last(), sep);
        if rest.last() == sep {
            assert((seq![p] + d).push(c) =~= seq![p] + d.push(c));
        }
    }
}

/// The modifier mask of `p` followed by `parts`, where `p` sets `bit`: `bit`
/// joined with the mask of `parts` (the same error where one fails).
proof fn lemma_modifiers_fold_prefix(p: Seq<char>, bit: i32, parts: Seq<Seq<char>>, n: nat)
    requires
        modifier_bit(to_lowercase_spec(p)) == Some(bit),
        n <= parts.len(),
    ensures
        modifiers_fold(seq![p] + parts, n + 1) == match modifiers_fold(parts, n) {
            Ok(m) => Ok::<i32, Seq<char>>(bit | m),
            Err(e) => Err(e),
        },
    decreases n,
{
    let q = seq![p] + parts;
    if n == 0 {
        assert(q[0] == p);
        assert(modifiers_fold(q, 0) == Ok::<i32, Seq<char>>(0i32));
        assert(0i32 | bit == bit | 0i32) by (bit_vector);
        assert(modifiers_fold(q, 1) == Ok::<i32, Seq<char>>(0i32 | bit));
    } else {
        lemma_modifiers_fold_prefix(p, bit, parts, (n - 1) as nat);
        assert(q[n as int] == parts[n - 1]);
        match modifiers_fold(parts, (n - 1) as nat) {
            Ok(m0) => {
                assert(modifiers_fold(q, n) == Ok::<i32, Seq<char>>(bit | m0));
                match modifier_bit(to_lowercase_spec(parts[n - 1])) {
                    Some(b) => {
                        assert((bit | m0) | b == bit | (m0 | b)) by (bit_vector);
                        assert(modifiers_fold(q, n + 1) == Ok::<i32, Seq<char>>((bit | m0) | b));
                    },
                    None => {
                        assert(modifiers_fold(q, n + 1) == Err::<i32, Seq<char>>("Unknown modifier: "@ + q[n as int]));
                    },
                }
            },
            Err(e) => {
                assert(modifiers_fold(q, n) == Err::<i32, Seq<char>>(e));
            },
        }
    }
}

/// Every spelling of a modifier, in any letter case, sets its bit: `Alt`
/// 1; `Ctrl` and `Control` 2; `Meta`, `Cmd` and `Command` 4; `Shift` 8.
/// Putting such a modifier and a `+` in front of a combination adds the
/// bit to its modifiers and leaves its key (and any error) as they were.
pub proof fn lemma_modifier_prefix(p: Seq<char>, rest: Seq<char>, bit: i32)
    requires
        !p.contains('+'),
        (to_lowercase_spec(p) == "alt"@ && bit == 1) || ((to_lowercase_spec(p) == "ctrl"@ || to_lowercase_spec(p)
            == "control"@) && bit == 2) || ((to_lowercase_spec(p) == "meta"@ || to_lowercase_spec(p) == "cmd"@
            || to_lowercase_spec(p) == "command"@) && bit == 4) || (to_lowercase_spec(p) == "shift"@ && bit
            == 8),
    ensures
        key_combo_spec(p + seq!['+'] + rest) == match key_combo_spec(rest) {
            Ok((m, k)) => Ok::<(i32, (Seq<char>, Seq<char>, i32)), Seq<char>>((bit | m, k)),
            Err(e) => Err(e),
        },
{
    reveal_strlit("alt");
    reveal_strlit("ctrl");
    reveal_strlit("control");
    reveal_strlit("meta");
    reveal_strlit("cmd");
    reveal_strlit("command");
    reveal_strlit("shift");
    assert(modifier_bit(to_lowercase_spec(p)) == Some(bit)) by {
        let l = to_lowercase_spec(p);
        assert("ctrl"@[0] != "alt"@[0] && "control"@[0] != "alt"@[0]);
        assert("meta"@[0] != "alt"@[0] && "cmd"@[0] != "alt"@[0] && "command"@[0] != "alt"@[0]);
        assert("meta"@[0] != "ctrl"@[0] && "cmd"@[1] != "ctrl"@[1] && "command"@[2] != "control"@[2]);
        assert("cmd"@.len() != "control"@.len() && "command"@.len() != "ctrl"@.len());
        assert("meta"@.len() != "control"@.len());
        assert("shift"@[0] != "alt"@[0] && "shift"@[0] != "ctrl"@[0] && "shift"@[0] != "control"@[0]);
        assert("shift"@[0] != "meta"@[0] && "shift"@[0] != "cmd"@[0] && "shift"@[0] != "command"@[0]);
    }
    lemma_split_fold_after(p, '+', rest);
    let pieces = split_pieces(rest, '+');
    lemma_split_pieces_nonempty(rest, '+');
    let all = split_pieces(p + seq!['+'] + rest, '+');
    assert(all =~= seq![p] + pieces);
    lemma_modifiers_fold_prefix(p, bit, pieces, (pieces.len() - 1) as nat);
    assert(all.last() == pieces.last());
}

/// Reads a key combination (see `key_combo_spec`); an unknown modifier is
/// refused with `Unknown modifier: <part>`.
pub fn parse_key_combo(key: &str) -> (r: Result<KeyCombo, String>)
    ensures
        match (r, key_combo_spec(key@)) {
            (Ok(c), Ok((m, k))) => c.modifiers == m && (c.key.key@, c.key.code@, c.key.key_code)
                == k,
            (Err(e), Err(m)) => e@ == m,
            _ => false,
        },
{
    let chars = chars_of(key);
    let parts = split_on(chars.as_slice(), '+');
    let ghost pieces = split_pieces(key@, '+');
    proof {
        lemma_split_pieces_nonempty(key@, '+');
    }
    let n = parts.len();
    let mut mods: i32 = 0;
    let mut i: usize = 0;
    while i + 1 < n
        invariant
            n == parts@.len(),
            n == pieces.len(),
            n >= 1,
            pieces == split_pieces(key@, '+'),
            forall|k: int| 0 <= k < n ==> #[trigger] parts@[k]@ == pieces[k],
            0 <= i < n,
            modifiers_fold(pieces, i as nat) == Ok::<i32, Seq<char>>(mods),
        decreases n - i,
    {
        let part = string_from_chars(parts[i].as_slice());
        let lower = to_lowercase(part.as_str());
        let l = lower.as_str();
        let bit: i32 = if str_eq(l, "alt") {
            1
        } else if str_eq(l, "ctrl") || str_eq(l, "control") {
            2
        } else if str_eq(l, "meta") || str_eq(l, "cmd") || str_eq(l, "command") {
            4
        } else if str_eq(l, "shift") {
            8
        } else {
            let mut msg = chars_of("Unknown modifier: ");
            push_str(&mut msg, part.as_str());
            proof {
                assert(modifiers_fold(pieces, (i + 1) as nat) == Err::<i32, Seq<char>>(
                    "Unknown modifier: "@ + pieces[i as int],
                ));
                lemma_modifiers_error_sticks(pieces, (i + 1) as nat, (n - 1) as nat);
            }
            return Err(string_from_chars(msg.as_slice()));
        };
        mods = mods | bit;
        i = i + 1;
    }
    let last = string_from_chars(parts[n - 1].as_slice());
    let info = map_key(last.as_str());
    Ok(KeyCombo { modifiers: mods, key: info })
}

// ---------------------------------------------------------------------
// Page probes
// ---------------------------------------------------------------------

/// What the click probe's answer asks for next.
pub enum ClickProbe {
    /// The element was an `<option>` and was selected in its `<select>`;
    /// the message to report.
    Selected(String),
    /// The element is no option: click at its centre.
    PointerClick,
    /// The click cannot be made; the error message.
    Refused(String),
}

/// The meaning of the click probe's answer for `selector`.
pub open spec fn click_probe_spec(answer: Seq<char>, selector: Seq<char>) -> (int, Seq<char>) {
    if answer == "not_found"@ {
        (2, "Element not found: "@ + selector)
    } else if answer == "selected"@ {
        (0, "Selected option: "@ + selector)
    } else if answer == "option_disabled"@ {
        (2, "Cannot click disabled option: "@ + selector)
    } else if answer == "option_no_select"@ {
        (2, "Option element is not inside a select: "@ + selector)
    } else if answer == "select_disabled"@ {
        (2, "Cannot click option in disabled select: "@ + selector)
    } else if answer == "select_multiple"@ {
        (
            2,
            "Manual clicking on <option> is not supported for <select multiple>. Use `evaluate` to update selection instead: "@
                + selector,
        )
    } else if answer == "not_option"@ {
        (1, Seq::empty())
    } else {
        (2, "Unexpected response from page during click handling: "@ + answer)
    }
}

pub open spec fn click_probe_view(p: ClickProbe) -> (int, Seq<char>) {
    match p {
        ClickProbe::Selected(m) => (0, m@),
        ClickProbe::PointerClick => (1, Seq::empty()),
        ClickProbe::Refused(m) => (2, m@),
    }
}

/// Reads the click probe's answer (see `click_probe_spec`: 0 selected,
/// 1 click at the centre, 2 refused).
pub fn click_probe_outcome(answer: &str, selector: &str) -> (r: ClickProbe)
    ensures
        click_probe_view(r) == click_probe_spec(answer@, selector@),
{
    if str_eq(answer, "not_found") {
        ClickProbe::Refused(concat2("Element not found: ", selector))
    } else if str_eq(answer, "selected") {
        ClickProbe::Selected(concat2("Selected option: ", selector))
    } else if str_eq(answer, "option_disabled") {
        ClickProbe::Refused(concat2("Cannot click disabled option: ", selector))
    } else if str_eq(answer, "option_no_select") {
        ClickProbe::Refused(concat2("Option element is not inside a select: ", selector))
    } else if str_eq(answer, "select_disabled") {
        ClickProbe::Refused(concat2("Cannot click option in disabled select: ", selector))
    } else if str_eq(answer, "select_multiple") {
        ClickProbe::Refused(
            concat2(
                "Manual clicking on <option> is not supported for <select multiple>. Use `evaluate` to update selection instead: ",
                selector,
            ),
        )
    } else if str_eq(answer, "not_option") {
        ClickProbe::PointerClick
    } else {
        ClickProbe::Refused(concat2("Unexpected response from page during click handling: ", answer))
    }
}

/// What the fill probe's answer asks for next.
pub enum FillProbe {
    /// The page script set the value itself (select, checkbox, textarea).
    Done,
    /// The element was focused and cleared: type the value into it.
    InsertText,
    /// The fill cannot be made; the error message.
    Refused(String),
}

/// The meaning of the fill probe's answer.
pub open spec fn fill_probe_spec(answer: Seq<char>, selector: Seq<char>, value: Seq<char>) -> (int, Seq<char>) {
    if answer == "not_found"@ {
        (2, "Element not found: "@ + selector)
    } else if answer == "option_not_found"@ {
        (2, "Could not find option with text or value '"@ + value + "' in select element: "@ + selector)
    } else if answer == "file_input"@ {
        (2, "Cannot fill file input with text: "@ + selector)
    } else if answer == "select_ok"@ || answer == "checkbox_ok"@ || answer == "textarea_ok"@ {
        (0, Seq::empty())
    } else {
        (1, Seq::empty())
    }
}

pub open spec fn fill_probe_view(p: FillProbe) -> (int, Seq<char>) {
    match p {
        FillProbe::Done => (0, Seq::empty()),
        FillProbe::InsertText => (1, Seq::empty()),
        FillProbe::Refused(m) => (2, m@),
    }
}

/// Reads the fill probe's answer (see `fill_probe_spec`: 0 done, 1 type the
/// text, 2 refused).
pub fn fill_probe_outcome(answer: &str, selector: &str, value: &str) -> (r: FillProbe)
    ensures
        fill_probe_view(r) == fill_probe_spec(answer@, selector@, value@),
{
    if str_eq(answer, "not_found") {
        FillProbe::Refused(concat2("Element not found: ", selector))
    } else if str_eq(answer, "option_not_found") {
        let mut m = chars_of("Could not find option with text or value '");
        push_str(&mut m, value);
        push_str(&mut m, "' in select element: ");
        push_str(&mut m, selector);
        FillProbe::Refused(string_from_chars(m.as_slice()))
    } else if str_eq(answer, "file_input") {
        FillProbe::Refused(concat2("Cannot fill file input with text: ", selector))
    } else if str_eq(answer, "select_ok") || str_eq(answer, "checkbox_ok") || str_eq(
        answer,
        "textarea_ok",
    ) {
        FillProbe::Done
    } else {
        FillProbe::InsertText
    }
}

/// The text of a script exception: its description, else its text, else
/// `Unknown error`.
pub open spec fn exception_text_spec(description: Option<Seq<char>>, text: Option<Seq<char>>) -> Seq<char> {
    match description {
        Some(d) => d,
        None => match text {
            Some(t) => t,
            None => "Unknown error"@,
        },
    }
}

/// The error reported when a page script throws while `action` runs.
pub fn script_error_message(action: &str, description: Option<&str>, text: Option<&str>) -> (r: String)
    ensures
        r@ == "JavaScript error "@ + action@ + ": "@ + exception_text_spec(
            match description {
                Some(d) => Some(d@),
                None => None,
            },
            match text {
                Some(t) => Some(t@),
                None => None,
            },
        ),
{
    let mut m = chars_of("JavaScript error ");
    push_str(&mut m, action);
    push_str(&mut m, ": ");
    match description {
        Some(d) => push_str(&mut m, d),
        None => match text {
            Some(t) => push_str(&mut m, t),
            None => push_str(&mut m, "Unknown error"),
        },
    }
    string_from_chars(m.as_slice())
}

// ---------------------------------------------------------------------
// Messages
// ---------------------------------------------------------------------

/// `Hovered: <selector>`.
pub fn hovered_message(selector: &str) -> (r: String)
    ensures
        r@ == "Hovered: "@ + selector@,
{
    concat2("Hovered: ", selector)
}

/// `Filled '<selector>' with: <value>`.
pub fn filled_message(selector: &str, value: &str) -> (r: String)
    ensures
        r@ == "Filled '"@ + selector@ + "' with: "@ + value@,
{
    let mut m = chars_of("Filled '");
    push_str(&mut m, selector);
    push_str(&mut m, "' with: ");
    push_str(&mut m, value);
    string_from_chars(m.as_slice())
}

/// `Typed: <text>`, followed by ` + <key>` when a submit key was pressed.
pub fn typed_message(text: &str, submit_key: Option<&str>) -> (r: String)
    ensures
        r@ == "Typed: "@ + text@ + match submit_key {
            Some(k) => " + "@ + k@,
            None => Seq::empty(),
        },
{
    let mut m = chars_of("Typed: ");
    push_str(&mut m, text);
    match submit_key {
        Some(k) => {
            push_str(&mut m, " + ");
            push_str(&mut m, k);
        },
        None => {
            proof {
                assert(m@ + Seq::<char>::empty() =~= m@);
            }
        },
    }
    string_from_chars(m.as_slice())
}

/// `Pressed: <key>`.
pub fn pressed_message(key: &str) -> (r: String)
    ensures
        r@ == "Pressed: "@ + key@,
{
    concat2("Pressed: ", key)
}

// ---------------------------------------------------------------------
// Page scripts
// ---------------------------------------------------------------------

/// A lower-case hexadecimal digit.
pub open spec fn hex_digit(n: int) -> char {
    if n < 10 {
        ('0' as int + n) as char
    } else {
        ('a' as int + n - 10) as char
    }
}

/// How one character is written inside a JSON string: `"` and `\` behind a
/// backslash; backspace, form feed, line feed, carriage return and tab as
/// `\b`, `\f`, `\n`, `\r`, `\t`; every other control character below
/// U+0020 as `\u00xx` in lower-case hex; anything else as itself.
pub open spec fn json_escape_char(c: char) -> Seq<char> {
    if c == '"' {
        seq!['\\', '"']
    } else if c == '\\' {
        seq!['\\', '\\']
    } else if c == '\u{8}' {
        seq!['\\', 'b']
    } else if c == '\u{c}' {
        seq!['\\', 'f']
    } else if c == '\n' {
        seq!['\\', 'n']
    } else if c == '\r' {
        seq!['\\', 'r']
    } else if c == '\t' {
        seq!['\\', 't']
    } else if (c as int) < 0x20 {
        seq!['\\', 'u', '0', '0', hex_digit(c as int / 16), hex_digit(c as int % 16)]
    } else {
        seq![c]
    }
}

/// The characters of `s`, each written as inside a JSON string.
pub open spec fn json_escaped(s: Seq<char>) -> Seq<char>
    decreases s.len(),
{
    if s.len() == 0 {
        Seq::empty()
    } else {
        json_escaped(s.drop_last()) + json_escape_char(s.last())
    }
}

/// A string as a JSON string literal: its escaped characters in double
/// quotes.
pub open spec fn json_string_literal(s: Seq<char>) -> Seq<char> {
    seq!['"'] + json_escaped(s) + seq!['"']
}

/// `serde_json::to_string` on a string slice: its JSON string literal,
/// escaped as serde_json's compact formatter escapes string contents.
/// Serialising a `str` into memory cannot fail, so the error arm is never
/// taken.
#[verifier::external_body]
pub(crate) fn json_quote(s: &str) -> (r: String)
    ensures
        r@ == json_string_literal(s@),
{
    match serde_json::to_string(s) {
        Ok(t) => t,
        Err(_) => String::new(),
    }
}

/// The script that finds the centre of the element `selector` selects.
pub open spec fn center_script_spec(selector: Seq<char>) -> Seq<char> {
    let q = json_string_literal(selector);
    "(() => {\n            const el = document.querySelector("@ + q
        + ");\n            if (!el) return JSON.stringify({error: \"Element not found: \" + "@ + q
        + "});\n            const rect = el.getBoundingClientRect();\n            return JSON.stringify({x: rect.x + rect.width/2, y: rect.y + rect.height/2});\n        })()"@
}

/// Builds the centre-finding script (see `center_script_spec`).
pub fn center_script(selector: &str) -> (r: String)
    ensures
        r@ == center_script_spec(selector@),
{
    let q = json_quote(selector);
    let mut m = chars_of("(() => {\n            const el = document.querySelector(");
    push_str(&mut m, q.as_str());
    push_str(&mut m, ");\n            if (!el) return JSON.stringify({error: \"Element not found: \" + ");
    push_str(&mut m, q.as_str());
    push_str(
        &mut m,
        "});\n            const rect = el.getBoundingClientRect();\n            return JSON.stringify({x: rect.x + rect.width/2, y: rect.y + rect.height/2});\n        })()",
    );
    string_from_chars(m.as_slice())
}

/// The script that asks whether `selector` is an `<option>` and, if so,
/// selects it (answers as `click_probe_spec` reads).
pub open spec fn click_probe_script_spec(selector: Seq<char>) -> Seq<char> {
    "(() => {\n            const el = document.querySelector("@ + json_string_literal(selector)
        + ");\n            if (!el) return 'not_found';\n            if (el.tagName.toLowerCase() === 'option') {\n                if (el.disabled) return 'option_disabled';\n                const select = el.closest('select');\n                if (!select) return 'option_no_select';\n                if (select.disabled) return 'select_disabled';\n                if (select.multiple) return 'select_multiple';\n\n                select.value = el.value;\n                select.dispatchEvent(new Event('input', {bubbles: true}));\n                select.dispatchEvent(new Event('change', {bubbles: true}));\n                return 'selected';\n            }\n            return 'not_option';\n        })()"@
}

/// Builds the click probe script (see `click_probe_script_spec`).
pub fn click_probe_script(selector: &str) -> (r: String)
    ensures
        r@ == click_probe_script_spec(selector@),
{
    let q = json_quote(selector);
    let mut m = chars_of("(() => {\n            const el = document.querySelector(");
    push_str(&mut m, q.as_str());
    push_str(
        &mut m,
        ");\n            if (!el) return 'not_found';\n            if (el.tagName.toLowerCase() === 'option') {\n                if (el.disabled) return 'option_disabled';\n                const select = el.closest('select');\n                if (!select) return 'option_no_select';\n                if (select.disabled) return 'select_disabled';\n                if (select.multiple) return 'select_multiple';\n\n                select.value = el.value;\n                select.dispatchEvent(new Event('input', {bubbles: true}));\n                select.dispatchEvent(new Event('change', {bubbles: true}));\n                return 'selected';\n            }\n            return 'not_option';\n        })()",
    );
    string_from_chars(m.as_slice())
}

/// The script that fires `input` and `change` on the element `selector`
/// selects, after text was typed into it.
pub open spec fn change_script_spec(selector: Seq<char>) -> Seq<char> {
    "(() => {\n            const el = document.querySelector("@ + json_string_literal(selector)
        + ");\n            if (el) {\n                el.dispatchEvent(new Event('input', {bubbles: true}));\n                el.dispatchEvent(new Event('change', {bubbles: true}));\n            }\n        })()"@
}

/// Builds the change-event script (see `change_script_spec`).
pub fn change_script(selector: &str) -> (r: String)
    ensures
        r@ == change_script_spec(selector@),
{
    let q = json_quote(selector);
    let mut m = chars_of("(() => {\n            const el = document.querySelector(");
    push_str(&mut m, q.as_str());
    push_str(
        &mut m,
        ");\n            if (el) {\n                el.dispatchEvent(new Event('input', {bubbles: true}));\n                el.dispatchEvent(new Event('change', {bubbles: true}));\n            }\n        })()",
    );
    string_from_chars(m.as_slice())
}

/// The script that fills the element `selector` selects with `value` where
/// the page can do so itself (answers as `fill_probe_spec` reads).
pub open spec fn fill_script_spec(selector: Seq<char>, value: Seq<char>) -> Seq<char> {
    let qs = json_string_literal(selector);
    let qv = json_string_literal(value);
    "(() => {\n            const el = document.querySelector("@
        + qs
        + ");\n            if (!el) return 'not_found';\n\n            const tagName = el.tagName.toLowerCase();\n            const type = el.type ? el.type.toLowerCase() : '';\n\n            if (tagName === 'select') {\n                let optionFound = false;\n                for (const option of el.options) {\n                    if (option.value === "@
        + qv
        + " || option.text === "@
        + qv
        + ") {\n                        el.value = option.value;\n                        optionFound = true;\n                        break;\n                    }\n                }\n                if (!optionFound) {\n                    return 'option_not_found';\n                }\n                el.dispatchEvent(new Event('input', {bubbles: true}));\n                el.dispatchEvent(new Event('change', {bubbles: true}));\n                return 'select_ok';\n            }\n\nif (tagName === 'input' && (type === 'checkbox' || type === 'radio')) {\n                 const isTrue = "@
        + qv
        + ".toLowerCase() === 'true';\n                 if (el.checked !== isTrue) {\n                     el.checked = isTrue;\n                     el.dispatchEvent(new Event('input', {bubbles: true}));\n                     el.dispatchEvent(new Event('change', {bubbles: true}));\n                 }\n                 return 'checkbox_ok';\n             }\n\n             if (tagName === 'textarea') {\n                 el.value = "@
        + qv
        + ";\n                 el.dispatchEvent(new Event('input', {bubbles: true}));\n                 el.dispatchEvent(new Event('change', {bubbles: true}));\n                 return 'textarea_ok';\n             }\n\n             if (type === 'file') {\n                 return 'file_input';\n             }\n\n             // For contenteditable elements or other text-like elements\n             el.focus();\n             el.value = '';\n             el.dispatchEvent(new Event('input', {bubbles: true}));\n             return 'ok';\n        })()"@
}

/// Builds the fill script (see `fill_script_spec`).
pub fn fill_script(selector: &str, value: &str) -> (r: String)
    ensures
        r@ == fill_script_spec(selector@, value@),
{
    let qs = json_quote(selector);
    let qv = json_quote(value);
    let mut m: Vec<char> = Vec::new();
    push_str(&mut m, "(() => {\n            const el = document.querySelector(");
    push_str(&mut m, qs.as_str());
    push_str(&mut m, ");\n            if (!el) return 'not_found';\n\n            const tagName = el.tagName.toLowerCase();\n            const type = el.type ? el.type.toLowerCase() : '';\n\n            if (tagName === 'select') {\n                let optionFound = false;\n                for (const option of el.options) {\n                    if (option.value === ");
    push_str(&mut m, qv.as_str());
    push_str(&mut m, " || option.text === ");
    push_str(&mut m, qv.as_str());
    push_str(&mut m, ") {\n                        el.value = option.value;\n                        optionFound = true;\n                        break;\n                    }\n                }\n                if (!optionFound) {\n                    return 'option_not_found';\n                }\n                el.dispatchEvent(new Event('input', {bubbles: true}));\n                el.dispatchEvent(new Event('change', {bubbles: true}));\n                return 'select_ok';\n            }\n\nif (tagName === 'input' && (type === 'checkbox' || type === 'radio')) {\n                 const isTrue = ");
    push_str(&mut m, qv.as_str());
    push_str(&mut m, ".toLowerCase() === 'true';\n                 if (el.checked !== isTrue) {\n                     el.checked = isTrue;\n                     el.dispatchEvent(new Event('input', {bubbles: true}));\n                     el.dispatchEvent(new Event('change', {bubbles: true}));\n                 }\n                 return 'checkbox_ok';\n             }\n\n             if (tagName === 'textarea') {\n                 el.value = ");
    push_str(&mut m, qv.as_str());
    push_str(&mut m, ";\n                 el.dispatchEvent(new Event('input', {bubbles: true}));\n                 el.dispatchEvent(new Event('change', {bubbles: true}));\n                 return 'textarea_ok';\n             }\n\n             if (type === 'file') {\n                 return 'file_input';\n             }\n\n             // For contenteditable elements or other text-like elements\n             el.focus();\n             el.value = '';\n             el.dispatchEvent(new Event('input', {bubbles: true}));\n             return 'ok';\n        })()");
    proof {
        assert(m@ =~= fill_script_spec(selector@, value@));
    }
    string_from_chars(m.as_slice())
}

} // verus!
