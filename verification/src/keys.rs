//! The platform keyboard normalized for the terminal boundary.
//!
//! The window describes a keystroke by its platform key name, the text it
//! produced and its modifiers. This module names the key and recovers the
//! printable text of a Control chord; which bytes a terminal receives is
//! decided further on.

use vstd::prelude::*;

use crate::text::{chars_of, equals_text, parse_unsigned, parsed_unsigned, string_from};

verus! {

/// The keys the window names by a word.
#[derive(Debug, Clone, Copy, PartialEq, Eq, Structural)]
pub enum NamedKey {
    Space,
    Enter,
    Tab,
    Escape,
    Backspace,
    Delete,
    Insert,
    Home,
    End,
    PageUp,
    PageDown,
    ArrowUp,
    ArrowDown,
    ArrowLeft,
    ArrowRight,
    BrowserBack,
    BrowserForward,
    Copy,
    Cut,
    Paste,
}

/// What a platform key name denotes.
#[derive(Debug, Clone, Copy, PartialEq, Eq, Structural)]
pub enum KeyName {
    Named(NamedKey),
    /// `F1` to `F25`.
    Function(u8),
    /// A key named by the one character it types.
    Character(char),
    Unidentified,
}

/// The named key for a platform key name.
pub open spec fn spec_named_key(key: Seq<char>) -> Option<NamedKey> {
    if key == "space"@ {
        Some(NamedKey::Space)
    } else if key == "enter"@ {
        Some(NamedKey::Enter)
    } else if key == "tab"@ {
        Some(NamedKey::Tab)
    } else if key == "escape"@ {
        Some(NamedKey::Escape)
    } else if key == "backspace"@ {
        Some(NamedKey::Backspace)
    } else if key == "delete"@ {
        Some(NamedKey::Delete)
    } else if key == "insert"@ {
        Some(NamedKey::Insert)
    } else if key == "home"@ {
        Some(NamedKey::Home)
    } else if key == "end"@ {
        Some(NamedKey::End)
    } else if key == "pageup"@ {
        Some(NamedKey::PageUp)
    } else if key == "pagedown"@ {
        Some(NamedKey::PageDown)
    } else if key == "up"@ {
        Some(NamedKey::ArrowUp)
    } else if key == "down"@ {
        Some(NamedKey::ArrowDown)
    } else if key == "left"@ {
        Some(NamedKey::ArrowLeft)
    } else if key == "right"@ {
        Some(NamedKey::ArrowRight)
    } else if key == "back"@ {
        Some(NamedKey::BrowserBack)
    } else if key == "forward"@ {
        Some(NamedKey::BrowserForward)
    } else if key == "copy"@ {
        Some(NamedKey::Copy)
    } else if key == "cut"@ {
        Some(NamedKey::Cut)
    } else if key == "paste"@ {
        Some(NamedKey::Paste)
    } else {
        None
    }
}

fn named_key(key: &Vec<char>) -> (named: Option<NamedKey>)
    ensures
        named == spec_named_key(key@),
{
    if equals_text(key, "space") {
        Some(NamedKey::Space)
    } else if equals_text(key, "enter") {
        Some(NamedKey::Enter)
    } else if equals_text(key, "tab") {
        Some(NamedKey::Tab)
    } else if equals_text(key, "escape") {
        Some(NamedKey::Escape)
    } else if equals_text(key, "backspace") {
        Some(NamedKey::Backspace)
    } else if equals_text(key, "delete") {
        Some(NamedKey::Delete)
    } else if equals_text(key, "insert") {
        Some(NamedKey::Insert)
    } else if equals_text(key, "home") {
        Some(NamedKey::Home)
    } else if equals_text(key, "end") {
        Some(NamedKey::End)
    } else if equals_text(key, "pageup") {
        Some(NamedKey::PageUp)
    } else if equals_text(key, "pagedown") {
        Some(NamedKey::PageDown)
    } else if equals_text(key, "up") {
        Some(NamedKey::ArrowUp)
    } else if equals_text(key, "down") {
        Some(NamedKey::ArrowDown)
    } else if equals_text(key, "left") {
        Some(NamedKey::ArrowLeft)
    } else if equals_text(key, "right") {
        Some(NamedKey::ArrowRight)
    } else if equals_text(key, "back") {
        Some(NamedKey::BrowserBack)
    } else if equals_text(key, "forward") {
        Some(NamedKey::BrowserForward)
    } else if equals_text(key, "copy") {
        Some(NamedKey::Copy)
    } else if equals_text(key, "cut") {
        Some(NamedKey::Cut)
    } else if equals_text(key, "paste") {
        Some(NamedKey::Paste)
    } else {
        None
    }
}

/// `f` followed by what parses as a `u8` between 1 and 25 names a function
/// key.
pub open spec fn spec_function_key(key: Seq<char>) -> Option<u8> {
    if key.len() > 0 && key[0] == 'f' {
        match parsed_unsigned(key.drop_first(), 255) {
            Some(n) => if 1 <= n <= 25 {
                Some(n as u8)
            } else {
                None
            },
            None => None,
        }
    } else {
        None
    }
}

fn function_key(key: &Vec<char>) -> (number: Option<u8>)
    ensures
        number == spec_function_key(key@),
{
    if key.len() == 0 || key[0] != 'f' {
        return None;
    }
    assert(key@.subrange(1, key@.len() as int) =~= key@.drop_first());
    match parse_unsigned(key, 1, 255) {
        Some(n) => if 1 <= n && n <= 25 {
            Some(n as u8)
        } else {
            None
        },
        None => None,
    }
}

/// The one character of a one-character key name.
pub open spec fn spec_single(key: Seq<char>) -> Option<char> {
    if key.len() == 1 {
        Some(key[0])
    } else {
        None
    }
}

/// The one character of `key`, when it has exactly one.
pub fn single(key: &str) -> (character: Option<char>)
    ensures
        character == spec_single(key@),
{
    let chars = chars_of(key);
    if chars.len() == 1 {
        Some(chars[0])
    } else {
        None
    }
}

/// What a platform key name denotes: a named key, else a function key, else
/// the single character it is, else nothing known.
pub open spec fn spec_key_name(key: Seq<char>) -> KeyName {
    match spec_named_key(key) {
        Some(named) => KeyName::Named(named),
        None => match spec_function_key(key) {
            Some(n) => KeyName::Function(n),
            None => match spec_single(key) {
                Some(c) => KeyName::Character(c),
                None => KeyName::Unidentified,
            },
        },
    }
}

pub fn key_name(key: &str) -> (name: KeyName)
    ensures
        name == spec_key_name(key@),
{
    let k = chars_of(key);
    match named_key(&k) {
        Some(named) => KeyName::Named(named),
        None => match function_key(&k) {
            Some(n) => KeyName::Function(n),
            None => match single(key) {
                Some(c) => KeyName::Character(c),
                None => KeyName::Unidentified,
            },
        },
    }
}

/// Unicode's control characters (general category `Cc`).
pub open spec fn spec_is_control(c: char) -> bool {
    c <= '\u{1f}' || ('\u{7f}' <= c && c <= '\u{9f}')
}

/// `char::is_control`.
pub fn is_control(c: char) -> (control: bool)
    ensures
        control == spec_is_control(c),
{
    c <= '\u{1f}' || ('\u{7f}' <= c && c <= '\u{9f}')
}

/// The conventional shifted face of a US-layout key.
pub open spec fn spec_shifted_ascii(c: char) -> char {
    if 'a' <= c && c <= 'z' {
        ((c as u8) - 32) as char
    } else if c == '`' {
        '~'
    } else if c == '1' {
        '!'
    } else if c == '2' {
        '@'
    } else if c == '3' {
        '#'
    } else if c == '4' {
        '$'
    } else if c == '5' {
        '%'
    } else if c == '6' {
        '^'
    } else if c == '7' {
        '&'
    } else if c == '8' {
        '*'
    } else if c == '9' {
        '('
    } else if c == '0' {
        ')'
    } else if c == '-' {
        '_'
    } else if c == '=' {
        '+'
    } else if c == '[' {
        '{'
    } else if c == ']' {
        '}'
    } else if c == '\\' {
        '|'
    } else if c == ';' {
        ':'
    } else if c == '\'' {
        '"'
    } else if c == ',' {
        '<'
    } else if c == '.' {
        '>'
    } else if c == '/' {
        '?'
    } else {
        c
    }
}

/// The shifted face follows the US layout, key by key: each character of
/// the unshifted row below shifts to the character at the same place in the
/// shifted row, each lower-case letter to its capital, and every other
/// character is its own shifted face.
pub proof fn lemma_shifted_face_follows_us_layout()
    ensures
        forall|i: int| 0 <= i < 21 ==> spec_shifted_ascii(#[trigger] "`1234567890-=[]\\;',./"@[i])
            == "~!@#$%^&*()_+{}|:\"<>?"@[i],
        forall|i: int| 0 <= i < 26 ==> spec_shifted_ascii(#[trigger] "abcdefghijklmnopqrstuvwxyz"@[i])
            == "ABCDEFGHIJKLMNOPQRSTUVWXYZ"@[i],
        forall|c: char| !"`1234567890-=[]\\;',./"@.contains(c) && !('a' <= c && c <= 'z') ==> #[trigger] spec_shifted_ascii(c) == c,
{
    reveal_strlit("`1234567890-=[]\\;',./");
    reveal_strlit("~!@#$%^&*()_+{}|:\"<>?");
    reveal_strlit("abcdefghijklmnopqrstuvwxyz");
    reveal_strlit("ABCDEFGHIJKLMNOPQRSTUVWXYZ");
    let row = "`1234567890-=[]\\;',./"@;
    assert forall|c: char| !row.contains(c) && !('a' <= c && c <= 'z') implies #[trigger] spec_shifted_ascii(c) == c by {
        assert(row[0] != c);
        assert(row[1] != c);
        assert(row[2] != c);
        assert(row[3] != c);
        assert(row[4] != c);
        assert(row[5] != c);
        assert(row[6] != c);
        assert(row[7] != c);
        assert(row[8] != c);
        assert(row[9] != c);
        assert(row[10] != c);
        assert(row[11] != c);
        assert(row[12] != c);
        assert(row[13] != c);
        assert(row[14] != c);
        assert(row[15] != c);
        assert(row[16] != c);
        assert(row[17] != c);
        assert(row[18] != c);
        assert(row[19] != c);
        assert(row[20] != c);
    }
}

/// The shifted face of `c`; needed only when a platform replaced a Control
/// chord's text with its control byte.
pub fn shifted_ascii(c: char) -> (shifted: char)
    ensures
        shifted == spec_shifted_ascii(c),
{
    if 'a' <= c && c <= 'z' {
        ((c as u8) - 32) as char
    } else if c == '`' {
        '~'
    } else if c == '1' {
        '!'
    } else if c == '2' {
        '@'
    } else if c == '3' {
        '#'
    } else if c == '4' {
        '$'
    } else if c == '5' {
        '%'
    } else if c == '6' {
        '^'
    } else if c == '7' {
        '&'
    } else if c == '8' {
        '*'
    } else if c == '9' {
        '('
    } else if c == '0' {
        ')'
    } else if c == '-' {
        '_'
    } else if c == '=' {
        '+'
    } else if c == '[' {
        '{'
    } else if c == ']' {
        '}'
    } else if c == '\\' {
        '|'
    } else if c == ';' {
        ':'
    } else if c == '\'' {
        '"'
    } else if c == ',' {
        '<'
    } else if c == '.' {
        '>'
    } else if c == '/' {
        '?'
    } else {
        c
    }
}

/// The printable character a physical key stands for, shifted when Shift
/// is held; `space` types a space.
pub open spec fn spec_physical_text(key: Seq<char>, shift: bool) -> Option<Seq<char>> {
    if key == "space"@ {
        Some(seq![' '])
    } else {
        match spec_single(key) {
            Some(c) => Some(seq![if shift { spec_shifted_ascii(c) } else { c }]),
            None => None,
        }
    }
}

/// Whether some character of `text` is a control character.
pub open spec fn has_control(text: Seq<char>) -> bool {
    exists|i: int| 0 <= i < text.len() && spec_is_control(#[trigger] text[i])
}

/// The text a keystroke typed, after Shift and layout but before Control and
/// Alt: the platform's text when it is printable; for a Control chord whose
/// text is missing or a control byte, the physical key's character; else
/// none.
pub open spec fn spec_typed_text(
    key: Seq<char>,
    key_char: Option<Seq<char>>,
    control: bool,
    shift: bool,
) -> Option<Seq<char>> {
    match key_char {
        Some(text) if text.len() > 0 && !has_control(text) => Some(text),
        _ => if control {
            spec_physical_text(key, shift)
        } else {
            None
        },
    }
}

pub open spec fn opt_view(text: Option<&str>) -> Option<Seq<char>> {
    match text {
        Some(t) => Some(t@),
        None => None,
    }
}

pub open spec fn opt_string_view(text: Option<String>) -> Option<Seq<char>> {
    match text {
        Some(t) => Some(t@),
        None => None,
    }
}

fn printable(text: &Vec<char>) -> (ok: bool)
    ensures
        ok == (text@.len() > 0 && !has_control(text@)),
{
    if text.len() == 0 {
        return false;
    }
    let mut i: usize = 0;
    while i < text.len()
        invariant
            i <= text@.len(),
            forall|j: int| 0 <= j < i ==> !spec_is_control(text@[j]),
        decreases text@.len() - i,
    {
        if is_control(text[i]) {
            return false;
        }
        i = i + 1;
    }
    true
}

fn physical_text(key: &Vec<char>, shift: bool) -> (text: Option<String>)
    ensures
        opt_string_view(text) == spec_physical_text(key@, shift),
{
    if equals_text(key, "space") {
        let v: Vec<char> = vec![' '];
        return Some(string_from(v.as_slice()));
    }
    if key.len() != 1 {
        return None;
    }
    let c = if shift {
        shifted_ascii(key[0])
    } else {
        key[0]
    };
    let v: Vec<char> = vec![c];
    Some(string_from(v.as_slice()))
}

/// The text of a keystroke, from its key name, the platform's text and the
/// Control and Shift modifiers.
pub fn typed_text(key: &str, key_char: Option<&str>, control: bool, shift: bool) -> (text: Option<String>)
    ensures
        opt_string_view(text) == spec_typed_text(key@, opt_view(key_char), control, shift),
{
    if let Some(t) = key_char {
        let chars = chars_of(t);
        if printable(&chars) {
            return Some(string_from(chars.as_slice()));
        }
    }
    if control {
        physical_text(&chars_of(key), shift)
    } else {
        None
    }
}

/// Text the platform typed that is printable passes through untouched,
/// whatever the modifiers.
pub proof fn lemma_printable_text_is_kept(key: Seq<char>, text: Seq<char>, control: bool, shift: bool)
    requires
        text.len() > 0,
        !has_control(text),
    ensures
        spec_typed_text(key, Some(text), control, shift) == Some(text),
{
}

} // verus!
