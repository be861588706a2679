//! The command palette: its commands, the filter a query applies, and how the
//! arrow keys move the selection through what is left.

use vstd::prelude::*;

use crate::text::{chars_of, string_from, trim_chars, trimmed};

verus! {

/// A command the palette offers.
#[derive(Debug, Clone, Copy, PartialEq, Eq, Structural)]
pub enum PaletteCommand {
    NewTerminal,
    CloseItem,
    CloseAllItems,
    MoveLeft,
    MoveRight,
    MoveUp,
    MoveDown,
    JoinPane,
    FocusLeft,
    FocusRight,
    FocusUp,
    FocusDown,
    OpenSettings,
}

/// The commands in the order the palette lists them.
pub open spec fn all_commands() -> Seq<PaletteCommand> {
    seq![
        PaletteCommand::NewTerminal,
        PaletteCommand::CloseItem,
        PaletteCommand::CloseAllItems,
        PaletteCommand::MoveLeft,
        PaletteCommand::MoveRight,
        PaletteCommand::MoveUp,
        PaletteCommand::MoveDown,
        PaletteCommand::JoinPane,
        PaletteCommand::FocusLeft,
        PaletteCommand::FocusRight,
        PaletteCommand::FocusUp,
        PaletteCommand::FocusDown,
        PaletteCommand::OpenSettings,
    ]
}

/// A command's label.
pub open spec fn spec_label(command: PaletteCommand) -> Seq<char> {
    match command {
        PaletteCommand::NewTerminal => "Workspace: New Terminal"@,
        PaletteCommand::CloseItem => "Pane: Close Active Item"@,
        PaletteCommand::CloseAllItems => "Pane: Close All Items"@,
        PaletteCommand::MoveLeft => "Pane: Move Active Item Left"@,
        PaletteCommand::MoveRight => "Pane: Move Active Item Right"@,
        PaletteCommand::MoveUp => "Pane: Move Active Item Up"@,
        PaletteCommand::MoveDown => "Pane: Move Active Item Down"@,
        PaletteCommand::JoinPane => "Pane: Join Into Next Pane"@,
        PaletteCommand::FocusLeft => "Pane: Focus Left"@,
        PaletteCommand::FocusRight => "Pane: Focus Right"@,
        PaletteCommand::FocusUp => "Pane: Focus Up"@,
        PaletteCommand::FocusDown => "Pane: Focus Down"@,
        PaletteCommand::OpenSettings => "Chartr: Open Settings"@,
    }
}

/// A command's shortcut as the palette shows it (empty when it has none).
pub open spec fn spec_shortcut(command: PaletteCommand) -> Seq<char> {
    match command {
        PaletteCommand::NewTerminal => "Ctrl+~"@,
        PaletteCommand::CloseItem => "Cmd/Ctrl+W"@,
        PaletteCommand::FocusLeft => "Cmd/Ctrl+K \u{2190}"@,
        PaletteCommand::FocusRight => "Cmd/Ctrl+K \u{2192}"@,
        PaletteCommand::FocusUp => "Cmd/Ctrl+K \u{2191}"@,
        PaletteCommand::FocusDown => "Cmd/Ctrl+K \u{2193}"@,
        PaletteCommand::OpenSettings => "Cmd/Ctrl+,"@,
        _ => ""@,
    }
}

impl PaletteCommand {
    /// All commands, in palette order.
    pub fn all() -> (commands: Vec<PaletteCommand>)
        ensures
            commands@ == all_commands(),
    {
        let commands = vec![
            PaletteCommand::NewTerminal,
            PaletteCommand::CloseItem,
            PaletteCommand::CloseAllItems,
            PaletteCommand::MoveLeft,
            PaletteCommand::MoveRight,
            PaletteCommand::MoveUp,
            PaletteCommand::MoveDown,
            PaletteCommand::JoinPane,
            PaletteCommand::FocusLeft,
            PaletteCommand::FocusRight,
            PaletteCommand::FocusUp,
            PaletteCommand::FocusDown,
            PaletteCommand::OpenSettings,
        ];
        assert(commands@ =~= all_commands());
        commands
    }

    pub fn label(self) -> (label: &'static str)
        ensures
            label@ == spec_label(self),
    {
        match self {
            PaletteCommand::NewTerminal => "Workspace: New Terminal",
            PaletteCommand::CloseItem => "Pane: Close Active Item",
            PaletteCommand::CloseAllItems => "Pane: Close All Items",
            PaletteCommand::MoveLeft => "Pane: Move Active Item Left",
            PaletteCommand::MoveRight => "Pane: Move Active Item Right",
            PaletteCommand::MoveUp => "Pane: Move Active Item Up",
            PaletteCommand::MoveDown => "Pane: Move Active Item Down",
            PaletteCommand::JoinPane => "Pane: Join Into Next Pane",
            PaletteCommand::FocusLeft => "Pane: Focus Left",
            PaletteCommand::FocusRight => "Pane: Focus Right",
            PaletteCommand::FocusUp => "Pane: Focus Up",
            PaletteCommand::FocusDown => "Pane: Focus Down",
            PaletteCommand::OpenSettings => "Chartr: Open Settings",
        }
    }

    pub fn shortcut(self) -> (shortcut: &'static str)
        ensures
            shortcut@ == spec_shortcut(self),
    {
        match self {
            PaletteCommand::NewTerminal => "Ctrl+~",
            PaletteCommand::CloseItem => "Cmd/Ctrl+W",
            PaletteCommand::FocusLeft => "Cmd/Ctrl+K \u{2190}",
            PaletteCommand::FocusRight => "Cmd/Ctrl+K \u{2192}",
            PaletteCommand::FocusUp => "Cmd/Ctrl+K \u{2191}",
            PaletteCommand::FocusDown => "Cmd/Ctrl+K \u{2193}",
            PaletteCommand::OpenSettings => "Cmd/Ctrl+,",
            _ => "",
        }
    }
}

/// What `str::to_lowercase` makes of a string (Unicode lower-casing, the
/// same everywhere).
pub uninterp spec fn unicode_lowercase(text: Seq<char>) -> Seq<char>;

/// Calls `str::to_lowercase`; the result is named by [`unicode_lowercase`].
#[verifier::external_body]
fn lowercase(text: &str) -> (lower: String)
    ensures
        lower@ == unicode_lowercase(text@),
{
    text.to_lowercase()
}

/// ASCII lower-casing of one character.
pub open spec fn ascii_lower(c: char) -> char {
    if 'A' <= c && c <= 'Z' {
        ((c as u8) + 32) as char
    } else {
        c
    }
}

/// `needle` occurs in `hay` at `at`.
pub open spec fn occurs_at(hay: Seq<char>, needle: Seq<char>, at: int) -> bool {
    0 <= at && at + needle.len() <= hay.len() && hay.subrange(at, at + needle.len()) == needle
}

/// `needle` occurs somewhere in `hay` (`str::contains`).
pub open spec fn contains_text(hay: Seq<char>, needle: Seq<char>) -> bool {
    exists|at: int| occurs_at(hay, needle, at)
}

/// A command matches a lower-cased query when the query is empty or occurs
/// in its lower-cased label. (The labels are ASCII, where lower-casing is
/// ASCII lower-casing.)
pub open spec fn matches(command: PaletteCommand, query: Seq<char>) -> bool {
    query.len() == 0 || contains_text(spec_label(command).map_values(|c: char| ascii_lower(c)), query)
}

/// The commands, in palette order, that match the lower-cased `query`.
pub open spec fn matching(query: Seq<char>) -> Seq<PaletteCommand> {
    all_commands().filter(|command: PaletteCommand| matches(command, query))
}

fn lowered(text: &Vec<char>) -> (lower: Vec<char>)
    ensures
        lower@ == text@.map_values(|c: char| ascii_lower(c)),
{
    let mut lower: Vec<char> = Vec::new();
    let mut i: usize = 0;
    while i < text.len()
        invariant
            i <= text@.len(),
            lower@ == text@.subrange(0, i as int).map_values(|c: char| ascii_lower(c)),
        decreases text@.len() - i,
    {
        let c = text[i];
        let l = if 'A' <= c && c <= 'Z' {
            ((c as u8) + 32) as char
        } else {
            c
        };
        lower.push(l);
        assert(text@.subrange(0, i + 1).map_values(|c: char| ascii_lower(c)) =~= text@.subrange(
            0,
            i as int,
        ).map_values(|c: char| ascii_lower(c)).push(ascii_lower(c)));
        i = i + 1;
    }
    assert(text@.subrange(0, text@.len() as int) =~= text@);
    lower
}

/// Whether `needle` occurs in `hay`.
pub fn find_text(hay: &Vec<char>, needle: &Vec<char>) -> (found: bool)
    ensures
        found == contains_text(hay@, needle@),
{
    if needle.len() > hay.len() {
        proof {
            assert forall|at: int| !occurs_at(hay@, needle@, at) by {}
        }
        return false;
    }
    let last = hay.len() - needle.len();
    let mut at: usize = 0;
    while at <= last
        invariant
            last == hay@.len() - needle@.len(),
            needle@.len() <= hay@.len(),
            at <= last,
            forall|a: int| 0 <= a < at ==> !occurs_at(hay@, needle@, a),
        decreases last + 1 - at,
    {
        let mut k: usize = 0;
        let mut same = true;
        while k < needle.len()
            invariant
                at <= last,
                last == hay@.len() - needle@.len(),
                needle@.len() <= hay@.len(),
                hay@.len() == hay.len(),
                hay.len() <= usize::MAX,
                k <= needle@.len(),
                same ==> forall|j: int| 0 <= j < k ==> hay@[at + j] == needle@[j],
                !same ==> !occurs_at(hay@, needle@, at as int),
            decreases needle@.len() - k,
        {
            if hay[at + k] != needle[k] {
                same = false;
                assert(hay@.subrange(at as int, at + needle@.len())[k as int] != needle@[k as int]);
            }
            k = k + 1;
        }
        if same {
            assert(hay@.subrange(at as int, at + needle@.len()) =~= needle@);
            assert(occurs_at(hay@, needle@, at as int));
            return true;
        }
        if at == last {
            proof {
                assert forall|a: int| !occurs_at(hay@, needle@, a) by {
                    if a > last {
                        assert(!(a + needle@.len() <= hay@.len()));
                    }
                }
            }
            return false;
        }
        at = at + 1;
    }
    false
}

/// The commands matching an already lower-cased query.
pub fn commands_matching(query: &Vec<char>) -> (commands: Vec<PaletteCommand>)
    ensures
        commands@ == matching(query@),
{
    let all = PaletteCommand::all();
    let mut commands: Vec<PaletteCommand> = Vec::new();
    let mut i: usize = 0;
    while i < all.len()
        invariant
            all@ == all_commands(),
            i <= all@.len(),
            commands@ == all@.subrange(0, i as int).filter(
                |command: PaletteCommand| matches(command, query@),
            ),
        decreases all@.len() - i,
    {
        let command = all[i];
        let label = lowered(&chars_of(command.label()));
        let keep = query.len() == 0 || find_text(&label, query);
        proof {
            reveal(Seq::filter);
            assert(all@.subrange(0, i + 1).drop_last() =~= all@.subrange(0, i as int));
            assert(all@.subrange(0, i + 1).last() == command);
        }
        if keep {
            commands.push(command);
        }
        i = i + 1;
    }
    assert(all@.subrange(0, all@.len() as int) =~= all@);
    commands
}

/// The commands the palette lists for what the user typed: the input is
/// trimmed and lower-cased first.
pub fn filtered_commands(query: &str) -> (commands: Vec<PaletteCommand>)
    ensures
        commands@ == matching(unicode_lowercase(trimmed(query@))),
{
    let trimmed_query = string_from(trim_chars(&chars_of(query)).as_slice());
    let lower = lowercase(trimmed_query.as_str());
    commands_matching(&chars_of(lower.as_str()))
}

/// The selection after Up: the previous row, wrapping to the last.
pub open spec fn spec_select_up(selected: int, count: int) -> int {
    if selected == 0 {
        count - 1
    } else {
        selected - 1
    }
}

/// The selection after Down: the next row, wrapping to the first.
pub open spec fn spec_select_down(selected: int, count: int) -> int {
    (selected + 1) % count
}

pub fn select_up(selected: usize, count: usize) -> (next: usize)
    requires
        count > 0,
    ensures
        next == spec_select_up(selected as int, count as int),
{
    if selected == 0 {
        count - 1
    } else {
        selected - 1
    }
}

pub fn select_down(selected: usize, count: usize) -> (next: usize)
    requires
        count > 0,
        selected < usize::MAX,
    ensures
        next == spec_select_down(selected as int, count as int),
{
    (selected + 1) % count
}

/// A selection beyond the list (after the filter shrank it) returns to the
/// first row.
pub fn clamp_selection(selected: usize, count: usize) -> (kept: usize)
    ensures
        kept == (if selected >= count { 0 } else { selected }),
{
    if selected >= count {
        0
    } else {
        selected
    }
}

/// Down then Up, and Up then Down, return to the row one started on, and
/// both stay within the list.
pub proof fn lemma_up_and_down_undo_each_other(selected: int, count: int)
    requires
        0 <= selected < count,
    ensures
        spec_select_up(spec_select_down(selected, count), count) == selected,
        spec_select_down(spec_select_up(selected, count), count) == selected,
        0 <= spec_select_up(selected, count) < count,
        0 <= spec_select_down(selected, count) < count,
{
    if selected + 1 < count {
        vstd::arithmetic::div_mod::lemma_small_mod((selected + 1) as nat, count as nat);
    } else {
        vstd::arithmetic::div_mod::lemma_mod_self_0(count);
    }
    if selected == 0 {
        vstd::arithmetic::div_mod::lemma_mod_self_0(count);
    } else {
        vstd::arithmetic::div_mod::lemma_small_mod(selected as nat, count as nat);
    }
}

/// An empty query lists every command.
pub proof fn lemma_empty_query_lists_everything()
    ensures
        matching(Seq::empty()) == all_commands(),
{
    lemma_filter_keeps_all(all_commands(), Seq::empty());
}

proof fn lemma_filter_keeps_all(commands: Seq<PaletteCommand>, query: Seq<char>)
    requires
        forall|i: int| 0 <= i < commands.len() ==> matches(#[trigger] commands[i], query),
    ensures
        commands.filter(|command: PaletteCommand| matches(command, query)) == commands,
    decreases commands.len(),
{
    reveal(Seq::filter);
    if commands.len() > 0 {
        lemma_filter_keeps_all(commands.drop_last(), query);
        assert(matches(commands[commands.len() - 1], query));
        assert(commands.drop_last().push(commands.last()) =~= commands);
    }
}

} // verus!
