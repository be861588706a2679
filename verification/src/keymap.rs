//! User-global Chartr keybindings.
//!
//! The editable file is sparse: omitted actions keep their platform default.
//! Settings records one chord at a time and refuses a chord that another
//! action already uses in the shared `Chartr` context. Reading and writing the
//! file is the application's job; this module owns the bindings and the rules.

use vstd::prelude::*;
use crate::text::{chars_of, has_prefix, is_blank, join_path, path_join, split_words, string_from, trim_chars, trimmed, words};

verus! {

/// The name of the keymap file inside the configuration directory.
pub const KEYMAP_FILE: &'static str = "keymap.toml";

/// The platform whose conventional shortcuts are the defaults.
#[derive(Debug, Clone, Copy, PartialEq, Eq, Structural)]
pub enum Platform {
    MacOs,
    Other,
}

#[derive(Debug, Clone, Copy, PartialEq, Eq, Structural, Hash)]
pub enum KeymapAction {
    CloseItem,
    NewTerminal,
    FocusLeft,
    FocusRight,
    FocusUp,
    FocusDown,
    ToggleZoom,
    CommandPalette,
    OpenSettings,
}

/// Every action, in the order conflicts are reported.
pub open spec fn all_actions() -> Seq<KeymapAction> {
    seq![
        KeymapAction::CloseItem,
        KeymapAction::NewTerminal,
        KeymapAction::FocusLeft,
        KeymapAction::FocusRight,
        KeymapAction::FocusUp,
        KeymapAction::FocusDown,
        KeymapAction::ToggleZoom,
        KeymapAction::CommandPalette,
        KeymapAction::OpenSettings,
    ]
}

impl KeymapAction {
    /// Every action, in the order conflicts are reported.
    pub fn all() -> (actions: Vec<KeymapAction>)
        ensures
            actions@ == all_actions(),
    {
        vec![
            KeymapAction::CloseItem,
            KeymapAction::NewTerminal,
            KeymapAction::FocusLeft,
            KeymapAction::FocusRight,
            KeymapAction::FocusUp,
            KeymapAction::FocusDown,
            KeymapAction::ToggleZoom,
            KeymapAction::CommandPalette,
            KeymapAction::OpenSettings,
        ]
    }

    /// The action's stable identifier in the keymap file.
    pub open spec fn spec_id(self) -> Seq<char> {
        match self {
            KeymapAction::CloseItem => "pane.close_active_item"@,
            KeymapAction::NewTerminal => "workspace.new_terminal"@,
            KeymapAction::FocusLeft => "workspace.activate_pane_left"@,
            KeymapAction::FocusRight => "workspace.activate_pane_right"@,
            KeymapAction::FocusUp => "workspace.activate_pane_up"@,
            KeymapAction::FocusDown => "workspace.activate_pane_down"@,
            KeymapAction::ToggleZoom => "workspace.toggle_zoom"@,
            KeymapAction::CommandPalette => "command_palette.toggle"@,
            KeymapAction::OpenSettings => "settings.open"@,
        }
    }

    pub fn id(self) -> (id: &'static str)
        ensures
            id@ == self.spec_id(),
    {
        match self {
            KeymapAction::CloseItem => "pane.close_active_item",
            KeymapAction::NewTerminal => "workspace.new_terminal",
            KeymapAction::FocusLeft => "workspace.activate_pane_left",
            KeymapAction::FocusRight => "workspace.activate_pane_right",
            KeymapAction::FocusUp => "workspace.activate_pane_up",
            KeymapAction::FocusDown => "workspace.activate_pane_down",
            KeymapAction::ToggleZoom => "workspace.toggle_zoom",
            KeymapAction::CommandPalette => "command_palette.toggle",
            KeymapAction::OpenSettings => "settings.open",
        }
    }

    /// The action's title in Settings.
    pub open spec fn spec_title(self) -> Seq<char> {
        match self {
            KeymapAction::CloseItem => "Close active item"@,
            KeymapAction::NewTerminal => "New terminal"@,
            KeymapAction::FocusLeft => "Focus pane left"@,
            KeymapAction::FocusRight => "Focus pane right"@,
            KeymapAction::FocusUp => "Focus pane up"@,
            KeymapAction::FocusDown => "Focus pane down"@,
            KeymapAction::ToggleZoom => "Toggle pane zoom"@,
            KeymapAction::CommandPalette => "Command palette"@,
            KeymapAction::OpenSettings => "Open Settings"@,
        }
    }

    pub fn title(self) -> (title: &'static str)
        ensures
            title@ == self.spec_title(),
    {
        match self {
            KeymapAction::CloseItem => "Close active item",
            KeymapAction::NewTerminal => "New terminal",
            KeymapAction::FocusLeft => "Focus pane left",
            KeymapAction::FocusRight => "Focus pane right",
            KeymapAction::FocusUp => "Focus pane up",
            KeymapAction::FocusDown => "Focus pane down",
            KeymapAction::ToggleZoom => "Toggle pane zoom",
            KeymapAction::CommandPalette => "Command palette",
            KeymapAction::OpenSettings => "Open Settings",
        }
    }

    /// The platform's default chord for the action.
    pub open spec fn spec_default_key_on(self, platform: Platform) -> Seq<char> {
        match platform {
            Platform::MacOs => match self {
                KeymapAction::CloseItem => "cmd-w"@,
                KeymapAction::NewTerminal => "ctrl-~"@,
                KeymapAction::FocusLeft => "cmd-k cmd-left"@,
                KeymapAction::FocusRight => "cmd-k cmd-right"@,
                KeymapAction::FocusUp => "cmd-k cmd-up"@,
                KeymapAction::FocusDown => "cmd-k cmd-down"@,
                KeymapAction::ToggleZoom => "shift-escape"@,
                KeymapAction::CommandPalette => "cmd-shift-p"@,
                KeymapAction::OpenSettings => "cmd-,"@,
            },
            Platform::Other => match self {
                KeymapAction::CloseItem => "ctrl-w"@,
                KeymapAction::NewTerminal => "ctrl-~"@,
                KeymapAction::FocusLeft => "ctrl-k ctrl-left"@,
                KeymapAction::FocusRight => "ctrl-k ctrl-right"@,
                KeymapAction::FocusUp => "ctrl-k ctrl-up"@,
                KeymapAction::FocusDown => "ctrl-k ctrl-down"@,
                KeymapAction::ToggleZoom => "shift-escape"@,
                KeymapAction::CommandPalette => "ctrl-shift-p"@,
                KeymapAction::OpenSettings => "ctrl-,"@,
            },
        }
    }

    pub fn default_key_on(self, platform: Platform) -> (key: &'static str)
        ensures
            key@ == self.spec_default_key_on(platform),
    {
        match platform {
            Platform::MacOs => match self {
                KeymapAction::CloseItem => "cmd-w",
                KeymapAction::NewTerminal => "ctrl-~",
                KeymapAction::FocusLeft => "cmd-k cmd-left",
                KeymapAction::FocusRight => "cmd-k cmd-right",
                KeymapAction::FocusUp => "cmd-k cmd-up",
                KeymapAction::FocusDown => "cmd-k cmd-down",
                KeymapAction::ToggleZoom => "shift-escape",
                KeymapAction::CommandPalette => "cmd-shift-p",
                KeymapAction::OpenSettings => "cmd-,",
            },
            Platform::Other => match self {
                KeymapAction::CloseItem => "ctrl-w",
                KeymapAction::NewTerminal => "ctrl-~",
                KeymapAction::FocusLeft => "ctrl-k ctrl-left",
                KeymapAction::FocusRight => "ctrl-k ctrl-right",
                KeymapAction::FocusUp => "ctrl-k ctrl-up",
                KeymapAction::FocusDown => "ctrl-k ctrl-down",
                KeymapAction::ToggleZoom => "shift-escape",
                KeymapAction::CommandPalette => "ctrl-shift-p",
                KeymapAction::OpenSettings => "ctrl-,",
            },
        }
    }

    /// The default chord on platforms other than macOS.
    pub fn default_key(self) -> (key: &'static str)
        ensures
            key@ == self.spec_default_key_on(Platform::Other),
    {
        self.default_key_on(Platform::Other)
    }

    /// The contexts a live rebinding of this action replaces: Settings has a
    /// context of its own in which its shortcut must also work.
    pub fn rebind_contexts(self) -> (contexts: Vec<&'static str>)
        ensures
            contexts@.map_values(|c: &str| c@) == if self == KeymapAction::OpenSettings {
                seq!["Chartr"@, "ChartrSettings"@]
            } else {
                seq!["Chartr"@]
            },
    {
        let contexts = match self {
            KeymapAction::OpenSettings => vec!["Chartr", "ChartrSettings"],
            _ => vec!["Chartr"],
        };
        assert(contexts@.map_values(|c: &str| c@) =~= if self == KeymapAction::OpenSettings {
            seq!["Chartr"@, "ChartrSettings"@]
        } else {
            seq!["Chartr"@]
        });
        contexts
    }
}

/// Why a chord was not recorded.
#[derive(Debug)]
pub enum Error {
    /// The chord is empty or one of its keystrokes does not parse.
    Invalid(String),
    /// Another action already uses the chord.
    Conflict { key: String, action: KeymapAction },
    /// The keymap could not be written.
    Write(String),
}

/// The overriding chord stored for `id`, if any.
pub open spec fn binding_for(bindings: Seq<(Seq<char>, Seq<char>)>, id: Seq<char>) -> Option<Seq<char>>
    decreases bindings.len(),
{
    if bindings.len() == 0 {
        None
    } else if bindings.last().0 == id {
        Some(bindings.last().1)
    } else {
        binding_for(bindings.drop_last(), id)
    }
}

/// No identifier is bound twice.
pub open spec fn distinct_ids(bindings: Seq<(Seq<char>, Seq<char>)>) -> bool {
    forall|i: int, j: int| 0 <= i < j < bindings.len() ==> bindings[i].0 != bindings[j].0
}

/// The stored bindings and the load problem, if any.
pub struct KeymapStore {
    has_file: bool,
    platform: Platform,
    bindings: Vec<(String, String)>,
    problem: Option<String>,
}

/// Overrides as identifier and chord.
pub open spec fn pairs(bindings: Seq<(String, String)>) -> Seq<(Seq<char>, Seq<char>)> {
    bindings.map_values(|b: (String, String)| (b.0@, b.1@))
}

/// The mathematical value of a keymap store.
pub struct KeymapView {
    pub has_file: bool,
    pub platform: Platform,
    pub bindings: Seq<(Seq<char>, Seq<char>)>,
    pub problem: Option<Seq<char>>,
}

impl View for KeymapStore {
    type V = KeymapView;

    closed spec fn view(&self) -> KeymapView {
        KeymapView {
            has_file: self.has_file,
            platform: self.platform,
            bindings: pairs(self.bindings@),
            problem: match self.problem {
                Some(p) => Some(p@),
                None => None,
            },
        }
    }
}

/// The chord in effect for `action`: its override, or the platform default.
pub open spec fn effective_key(store: KeymapView, action: KeymapAction) -> Seq<char> {
    match binding_for(store.bindings, action.spec_id()) {
        Some(key) => key,
        None => action.spec_default_key_on(store.platform),
    }
}

/// The first action other than `action`, in [`all_actions`] order, whose
/// chord is `key`.
pub open spec fn first_conflict(store: KeymapView, action: KeymapAction, key: Seq<char>, from: int) -> Option<KeymapAction>
    decreases 9 - from,
{
    if from < 0 || from >= 9 {
        None
    } else {
        let candidate = all_actions()[from];
        if candidate != action && effective_key(store, candidate) == key {
            Some(candidate)
        } else {
            first_conflict(store, action, key, from + 1)
        }
    }
}

/// The bindings with the override for `id` removed.
pub open spec fn without_binding(bindings: Seq<(Seq<char>, Seq<char>)>, id: Seq<char>) -> Seq<(Seq<char>, Seq<char>)>
    decreases bindings.len(),
{
    if bindings.len() == 0 {
        bindings
    } else {
        let rest = without_binding(bindings.drop_last(), id);
        if bindings.last().0 != id {
            rest.push(bindings.last())
        } else {
            rest
        }
    }
}

/// What remains after removing an identifier was there before.
pub proof fn lemma_without_binding_contains(
    bindings: Seq<(Seq<char>, Seq<char>)>,
    id: Seq<char>,
    entry: (Seq<char>, Seq<char>),
)
    requires
        without_binding(bindings, id).contains(entry),
    ensures
        bindings.contains(entry),
        entry.0 != id,
    decreases bindings.len(),
{
    if bindings.len() > 0 {
        let rest = bindings.drop_last();
        let filtered = without_binding(rest, id);
        if bindings.last().0 != id && entry == bindings.last() {
            assert(bindings[bindings.len() - 1] == entry);
        } else {
            if bindings.last().0 != id {
                let k = choose|k: int| 0 <= k < filtered.push(bindings.last()).len() && filtered.push(bindings.last())[k] == entry;
                assert(k < filtered.len());
                assert(filtered[k] == entry);
            }
            lemma_without_binding_contains(rest, id, entry);
            let j = choose|j: int| 0 <= j < rest.len() && rest[j] == entry;
            assert(bindings[j] == entry);
        }
    }
}

/// The chord has a keystroke and every keystroke parses.
pub open spec fn chord_is_valid(key: Seq<char>, strokes_parse: bool) -> bool {
    !is_blank(key) && strokes_parse
}

/// The chord's keystrokes, separated by white space.
pub fn chord_strokes(chord: &str) -> (strokes: Vec<String>)
    ensures
        strokes@.map_values(|s: String| s@) == words(chord@),
{
    let chars = chars_of(chord);
    let split = split_words(&chars);
    let mut strokes: Vec<String> = Vec::new();
    let mut i: usize = 0;
    while i < split.len()
        invariant
            i <= split@.len(),
            strokes@.map_values(|s: String| s@) == split@.subrange(0, i as int).map_values(
                |w: Vec<char>| w@,
            ),
        decreases split@.len() - i,
    {
        let ghost before = strokes@.map_values(|s: String| s@);
        strokes.push(string_from(split[i].as_slice()));
        assert(strokes@.map_values(|s: String| s@) =~= before.push(split@[i as int]@));
        assert(split@.subrange(0, i + 1).map_values(|w: Vec<char>| w@) =~= split@.subrange(
            0,
            i as int,
        ).map_values(|w: Vec<char>| w@).push(split@[i as int]@));
        i = i + 1;
    }
    assert(split@.subrange(0, split@.len() as int) =~= split@);
    strokes
}

/// Whether `s` holds nothing but white space.
pub fn blank(s: &str) -> (result: bool)
    ensures
        result == is_blank(s@),
{
    let chars = chars_of(s);
    let mut i: usize = 0;
    while i < chars.len()
        invariant
            chars@ == s@,
            i <= chars@.len(),
            forall|j: int| 0 <= j < i ==> crate::text::is_white_space(#[trigger] chars@[j]),
        decreases chars@.len() - i,
    {
        if !crate::text::white_space(chars[i]) {
            return false;
        }
        i = i + 1;
    }
    true
}

impl KeymapStore {
    /// Every identifier has at most one override.
    #[verifier::type_invariant]
    closed spec fn overrides_are_unique(&self) -> bool {
        distinct_ids(self@.bindings)
    }

    /// The bindings of a keymap that could not be read or has no file.
    pub fn bare(platform: Platform) -> (store: KeymapStore)
        ensures
            !store@.has_file,
            store@.platform == platform,
            store@.bindings.len() == 0,
            store@.problem is None,
    {
        KeymapStore { has_file: false, platform, bindings: Vec::new(), problem: None }
    }

    /// A store backed by a file. `bindings` are the file's overrides; a later
    /// entry for an identifier replaces an earlier one. `problem` says why
    /// the file could not be read, in which case the defaults are active.
    pub fn from_file(platform: Platform, bindings: Vec<(String, String)>, problem: Option<String>) -> (store: KeymapStore)
        ensures
            store@.has_file,
            store@.platform == platform,
            distinct_ids(store@.bindings),
            forall|id: Seq<char>| #[trigger] binding_for(store@.bindings, id) == binding_for(
                bindings@.map_values(|b: (String, String)| (b.0@, b.1@)),
                id,
            ),
            store@.problem == match problem {
                Some(p) => Some(p@),
                None => None,
            },
    {
        let mut store = KeymapStore { has_file: true, platform, bindings: Vec::new(), problem };
        let ghost given = bindings@.map_values(|b: (String, String)| (b.0@, b.1@));
        let mut i: usize = 0;
        while i < bindings.len()
            invariant
                i <= bindings@.len(),
                given == bindings@.map_values(|b: (String, String)| (b.0@, b.1@)),
                distinct_ids(store@.bindings),
                store@.has_file,
                store@.platform == platform,
                store@.problem == match problem {
                    Some(p) => Some(p@),
                    None => None,
                },
                forall|id: Seq<char>| #[trigger] binding_for(store@.bindings, id) == binding_for(
                    given.subrange(0, i as int),
                    id,
                ),
            decreases bindings@.len() - i,
        {
            proof {
                assert(given.subrange(0, i + 1).drop_last() =~= given.subrange(0, i as int));
            }
            store.put(bindings[i].0.clone(), bindings[i].1.clone());
            i = i + 1;
        }
        assert(given.subrange(0, given.len() as int) =~= given);
        store
    }

    /// The stored overrides, for writing back to the file.
    pub fn bindings(&self) -> (bindings: &Vec<(String, String)>)
        ensures
            bindings@.map_values(|b: (String, String)| (b.0@, b.1@)) == self@.bindings,
    {
        &self.bindings
    }

    /// Why the file could not be read, if it could not.
    pub fn problem(&self) -> (problem: Option<&String>)
        ensures
            match problem {
                Some(p) => self@.problem == Some(p@),
                None => self@.problem is None,
            },
    {
        match &self.problem {
            Some(p) => Some(p),
            None => None,
        }
    }

    /// The override stored for `id`.
    fn lookup(&self, id: &str) -> (found: Option<&String>)
        ensures
            match found {
                Some(k) => binding_for(self@.bindings, id@) == Some(k@),
                None => binding_for(self@.bindings, id@) is None,
            },
    {
        let wanted = id.to_owned();
        let mut i: usize = self.bindings.len();
        assert(self@.bindings.subrange(0, i as int) =~= self@.bindings);
        while i > 0
            invariant
                i <= self.bindings@.len(),
                self@.bindings.len() == self.bindings@.len(),
                wanted@ == id@,
                binding_for(self@.bindings, id@) == binding_for(self@.bindings.subrange(0, i as int), id@),
            decreases i,
        {
            let ghost prefix = self@.bindings.subrange(0, i as int);
            proof {
                assert(prefix.drop_last() =~= self@.bindings.subrange(0, i - 1));
                assert(prefix.last() == self@.bindings[i - 1]);
                assert(self@.bindings[i - 1] == (self.bindings@[i - 1].0@, self.bindings@[i - 1].1@));
            }
            if self.bindings[i - 1].0 == wanted {
                return Some(&self.bindings[i - 1].1);
            }
            i = i - 1;
        }
        None
    }

    /// The chord in effect for `action`.
    pub fn key(&self, action: KeymapAction) -> (key: String)
        ensures
            key@ == effective_key(self@, action),
    {
        match self.lookup(action.id()) {
            Some(key) => key.clone(),
            None => action.default_key_on(self.platform).to_owned(),
        }
    }

    /// Records `key` for `id`, replacing any earlier override.
    fn put(&mut self, id: String, key: String)
        requires
            distinct_ids(old(self)@.bindings),
        ensures
            distinct_ids(final(self)@.bindings),
            final(self)@.has_file == old(self)@.has_file,
            final(self)@.platform == old(self)@.platform,
            final(self)@.problem == old(self)@.problem,
            forall|probe: Seq<char>| #[trigger] binding_for(final(self)@.bindings, probe) == if probe == id@ {
                Some(key@)
            } else {
                binding_for(old(self)@.bindings, probe)
            },
    {
        let mut kept = Self::without(&self.bindings, id.as_str());
        let ghost before = pairs(kept@);
        let ghost pair = (id@, key@);
        kept.push((id, key));
        proof {
            let after = pairs(kept@);
            assert(after =~= before.push(pair));
            assert(after.drop_last() =~= before);
            assert(after.last() == pair);
            assert forall|i: int| 0 <= i < before.len() implies before[i].0 != pair.0 by {
                assert(before[i] == (kept@[i].0@, kept@[i].1@));
            }
            assert(distinct_ids(after)) by {
                assert forall|i: int, j: int| 0 <= i < j < after.len() implies after[i].0 != after[j].0 by {
                    if j == after.len() - 1 {
                        assert(after[i] == before[i]);
                    } else {
                        assert(after[i] == before[i] && after[j] == before[j]);
                    }
                }
            }
            assert forall|probe: Seq<char>| #[trigger] binding_for(after, probe) == if probe == pair.0 {
                Some(pair.1)
            } else {
                binding_for(old(self)@.bindings, probe)
            } by {
                assert(binding_for(after, probe) == if pair.0 == probe {
                    Some(pair.1)
                } else {
                    binding_for(before, probe)
                });
            }
        }
        self.bindings = kept;
    }

    /// Drops the override for `id`.
    fn remove(&mut self, id: &str)
        requires
            distinct_ids(old(self)@.bindings),
        ensures
            distinct_ids(final(self)@.bindings),
            forall|i: int| 0 <= i < final(self)@.bindings.len() ==> final(self)@.bindings[i].0 != id@,
            final(self)@.has_file == old(self)@.has_file,
            final(self)@.platform == old(self)@.platform,
            final(self)@.problem == old(self)@.problem,
            forall|probe: Seq<char>| #[trigger] binding_for(final(self)@.bindings, probe) == if probe == id@ {
                None
            } else {
                binding_for(old(self)@.bindings, probe)
            },
    {
        let kept = Self::without(&self.bindings, id);
        self.bindings = kept;
    }

    /// The overrides other than the one for `id`, in order.
    fn without(bindings: &Vec<(String, String)>, id: &str) -> (kept: Vec<(String, String)>)
        requires
            distinct_ids(pairs(bindings@)),
        ensures
            pairs(kept@) == without_binding(
                pairs(bindings@),
                id@,
            ),
            distinct_ids(pairs(kept@)),
            forall|i: int| 0 <= i < kept@.len() ==> kept@[i].0@ != id@,
            forall|probe: Seq<char>| #[trigger] binding_for(pairs(kept@), probe) == if probe == id@ {
                None
            } else {
                binding_for(pairs(bindings@), probe)
            },
    {
        let mut kept: Vec<(String, String)> = Vec::new();
        let unwanted = id.to_owned();
        let ghost old_bindings = pairs(bindings@);
        let mut i: usize = 0;
        while i < bindings.len()
            invariant
                i <= bindings@.len(),
                old_bindings == pairs(bindings@),
                old_bindings.len() == bindings@.len(),
                unwanted@ == id@,
                distinct_ids(old_bindings),
                pairs(kept@) == without_binding(old_bindings.subrange(0, i as int), id@),
            decreases bindings@.len() - i,
        {
            let ghost before = pairs(kept@);
            proof {
                assert(old_bindings.subrange(0, i + 1).drop_last() =~= old_bindings.subrange(0, i as int));
                assert(old_bindings.subrange(0, i + 1).last() == old_bindings[i as int]);
                assert(old_bindings[i as int] == (bindings@[i as int].0@, bindings@[i as int].1@));
            }
            if bindings[i].0 != unwanted {
                kept.push((bindings[i].0.clone(), bindings[i].1.clone()));
                assert(pairs(kept@) =~= before.push(old_bindings[i as int]));
            }
            i = i + 1;
        }
        proof {
            assert(old_bindings.subrange(0, old_bindings.len() as int) =~= old_bindings);
            lemma_filter_bindings(old_bindings, id@);
            let kv = pairs(kept@);
            assert forall|i: int| 0 <= i < kept@.len() implies kept@[i].0@ != id@ by {
                assert(kv[i] == (kept@[i].0@, kept@[i].1@));
            }
        }
        kept
    }

    /// Records `key` for `action`. `strokes_parse` says whether every
    /// keystroke of [`chord_strokes`]`(key)` parses. A chord used by another
    /// action is refused and names the first such action; the default chord
    /// is stored as the absence of an override. On success the caller writes
    /// the file (see [`KeymapStore::save_plan`]).
    pub fn set(&mut self, action: KeymapAction, key: String, strokes_parse: bool) -> (result: Result<(), Error>)
        ensures
            distinct_ids(final(self)@.bindings),
            final(self)@.has_file == old(self)@.has_file,
            final(self)@.platform == old(self)@.platform,
            final(self)@.problem == old(self)@.problem,
            !chord_is_valid(key@, strokes_parse) ==> (result matches Err(Error::Invalid(k)) && k@ == key@ && final(self)@ == old(self)@),
            chord_is_valid(key@, strokes_parse) ==> (first_conflict(old(self)@, action, key@, 0) matches Some(other) ==>
                (result matches Err(Error::Conflict { key: k, action: a }) && k@ == key@ && a == other && final(self)@ == old(self)@)),
            chord_is_valid(key@, strokes_parse) && first_conflict(old(self)@, action, key@, 0) is None ==> {
                &&& result is Ok
                &&& effective_key(final(self)@, action) == key@
                &&& forall|other: KeymapAction| other != action ==> #[trigger] effective_key(final(self)@, other) == effective_key(old(self)@, other)
                &&& (key@ == action.spec_default_key_on(old(self)@.platform) <==> binding_for(final(self)@.bindings, action.spec_id()) is None)
                &&& binding_for(final(self)@.bindings, action.spec_id()) == (if key@ == action.spec_default_key_on(old(self)@.platform) {
                    None
                } else {
                    Some(key@)
                })
                &&& forall|id: Seq<char>| id != action.spec_id() ==> #[trigger] binding_for(final(self)@.bindings, id) == binding_for(old(self)@.bindings, id)
            },
    {
        proof {
            use_type_invariant(&*self);
        }
        if blank(key.as_str()) || !strokes_parse {
            return Err(Error::Invalid(key));
        }
        let actions = KeymapAction::all();
        let mut i: usize = 0;
        while i < actions.len()
            invariant
                actions@ == all_actions(),
                i <= 9,
                distinct_ids(self@.bindings),
                self@ == old(self)@,
                chord_is_valid(key@, strokes_parse),
                first_conflict(self@, action, key@, 0) == first_conflict(self@, action, key@, i as int),
            decreases 9 - i,
        {
            let candidate = actions[i];
            if candidate != action && self.key(candidate) == key {
                return Err(Error::Conflict { key, action: candidate });
            }
            i = i + 1;
        }
        let id = action.id();
        let default = action.default_key_on(self.platform).to_owned();
        if key == default {
            self.remove(id);
        } else {
            self.put(id.to_owned(), key);
        }
        proof {
            lemma_ids_distinct();
        }
        Ok(())
    }

    /// What saving must do: `Ok(false)` when there is no file, `Err` with the
    /// refusal when the file could not be read (it is never overwritten),
    /// and `Ok(true)` when the bindings are to be written.
    pub fn save_plan(&self) -> (plan: Result<bool, String>)
        ensures
            !self@.has_file ==> plan == Ok::<bool, String>(false),
            self@.has_file && self@.problem is None ==> plan == Ok::<bool, String>(true),
            self@.has_file ==> match self@.problem {
                Some(p) => plan matches Err(message) && message@ == p + "; Chartr will not overwrite a keymap it cannot read"@,
                None => true,
            },
    {
        if !self.has_file {
            return Ok(false);
        }
        match &self.problem {
            Some(problem) => {
                let mut message = problem.clone();
                message.append("; Chartr will not overwrite a keymap it cannot read");
                Err(message)
            },
            None => Ok(true),
        }
    }
}

/// Distinct actions have distinct identifiers.
pub proof fn lemma_ids_distinct()
    ensures
        forall|a: KeymapAction, b: KeymapAction| a != b ==> #[trigger] a.spec_id() != #[trigger] b.spec_id(),
{
    reveal_strlit("pane.close_active_item");
    reveal_strlit("workspace.new_terminal");
    reveal_strlit("workspace.activate_pane_left");
    reveal_strlit("workspace.activate_pane_right");
    reveal_strlit("workspace.activate_pane_up");
    reveal_strlit("workspace.activate_pane_down");
    reveal_strlit("workspace.toggle_zoom");
    reveal_strlit("command_palette.toggle");
    reveal_strlit("settings.open");
    assert forall|a: KeymapAction, b: KeymapAction| a != b implies #[trigger] a.spec_id() != #[trigger] b.spec_id() by {
        if a.spec_id().len() == b.spec_id().len() {
            if a.spec_id().len() == 28 {
                assert(a.spec_id()[24] != b.spec_id()[24]);
            } else {
                assert(a.spec_id()[0] != b.spec_id()[0]);
            }
        }
    }
}

/// On each platform, distinct actions have distinct default chords, and every
/// default chord is a valid one (given that its keystrokes parse).
pub proof fn lemma_default_chords_distinct(platform: Platform)
    ensures
        forall|a: KeymapAction, b: KeymapAction|
            a != b ==> #[trigger] a.spec_default_key_on(platform) != #[trigger] b.spec_default_key_on(platform),
        forall|a: KeymapAction| #[trigger] chord_is_valid(a.spec_default_key_on(platform), true),
{
    reveal_strlit("cmd-w");
    reveal_strlit("ctrl-~");
    reveal_strlit("cmd-k cmd-left");
    reveal_strlit("cmd-k cmd-right");
    reveal_strlit("cmd-k cmd-up");
    reveal_strlit("cmd-k cmd-down");
    reveal_strlit("shift-escape");
    reveal_strlit("cmd-shift-p");
    reveal_strlit("cmd-,");
    reveal_strlit("ctrl-w");
    reveal_strlit("ctrl-k ctrl-left");
    reveal_strlit("ctrl-k ctrl-right");
    reveal_strlit("ctrl-k ctrl-up");
    reveal_strlit("ctrl-k ctrl-down");
    reveal_strlit("ctrl-shift-p");
    reveal_strlit("ctrl-,");
    assert forall|a: KeymapAction, b: KeymapAction|
        a != b implies #[trigger] a.spec_default_key_on(platform) != #[trigger] b.spec_default_key_on(platform) by {
        let x = a.spec_default_key_on(platform);
        let y = b.spec_default_key_on(platform);
        if x.len() == y.len() {
            if x.len() <= 6 {
                assert(x[x.len() - 1] != y[y.len() - 1]);
            } else if x.len() == 12 {
                assert(x[0] != y[0]);
            } else {
                assert(x[x.len() - 4] != y[y.len() - 4]);
            }
        }
    }
    assert forall|a: KeymapAction| #[trigger] chord_is_valid(a.spec_default_key_on(platform), true) by {
        let x = a.spec_default_key_on(platform);
        assert(!crate::text::is_white_space(x[0]));
    }
}

/// Whether `s` ends with `suffix`.
pub open spec fn has_suffix(s: Seq<char>, suffix: Seq<char>) -> bool {
    suffix.len() <= s.len() && s.subrange(s.len() - suffix.len(), s.len() as int) == suffix
}

/// The pane-focus actions are the ones identified as
/// `workspace.activate_pane_<direction>`.
pub open spec fn focus_direction(action: KeymapAction) -> Option<Seq<char>> {
    let id = action.spec_id();
    if has_prefix(id, "workspace.activate_pane_"@) {
        Some(id.subrange(24, id.len() as int))
    } else {
        None
    }
}

/// On every platform, the default chord of a pane-focus action ends in the
/// direction it focuses (`…-left`, `…-right`, `…-up`, `…-down`), and so does
/// the chord in effect for it in a keymap without overrides. Both platforms'
/// defaults for an action end in the same key.
pub proof fn lemma_focus_defaults_follow_their_direction()
    ensures
        forall|p: Platform, a: KeymapAction| #[trigger] focus_direction(a) is Some ==> has_suffix(
            #[trigger] a.spec_default_key_on(p),
            seq!['-'] + focus_direction(a)->0,
        ),
        forall|store: KeymapView, a: KeymapAction|
            store.bindings.len() == 0 && focus_direction(a) is Some ==> has_suffix(
                #[trigger] effective_key(store, a),
                seq!['-'] + focus_direction(a)->0,
            ),
        forall|a: KeymapAction| #[trigger] a.spec_default_key_on(Platform::MacOs).last() == a.spec_default_key_on(
            Platform::Other,
        ).last(),
        focus_direction(KeymapAction::FocusLeft) == Some("left"@),
        focus_direction(KeymapAction::FocusRight) == Some("right"@),
        focus_direction(KeymapAction::FocusUp) == Some("up"@),
        focus_direction(KeymapAction::FocusDown) == Some("down"@),
{
    reveal_strlit("pane.close_active_item");
    reveal_strlit("workspace.new_terminal");
    reveal_strlit("workspace.activate_pane_left");
    reveal_strlit("workspace.activate_pane_right");
    reveal_strlit("workspace.activate_pane_up");
    reveal_strlit("workspace.activate_pane_down");
    reveal_strlit("workspace.toggle_zoom");
    reveal_strlit("command_palette.toggle");
    reveal_strlit("settings.open");
    reveal_strlit("workspace.activate_pane_");
    reveal_strlit("left");
    reveal_strlit("right");
    reveal_strlit("up");
    reveal_strlit("down");
    reveal_strlit("cmd-w");
    reveal_strlit("ctrl-~");
    reveal_strlit("cmd-k cmd-left");
    reveal_strlit("cmd-k cmd-right");
    reveal_strlit("cmd-k cmd-up");
    reveal_strlit("cmd-k cmd-down");
    reveal_strlit("shift-escape");
    reveal_strlit("cmd-shift-p");
    reveal_strlit("cmd-,");
    reveal_strlit("ctrl-w");
    reveal_strlit("ctrl-k ctrl-left");
    reveal_strlit("ctrl-k ctrl-right");
    reveal_strlit("ctrl-k ctrl-up");
    reveal_strlit("ctrl-k ctrl-down");
    reveal_strlit("ctrl-shift-p");
    reveal_strlit("ctrl-,");
    let prefix = "workspace.activate_pane_"@;
    let l = KeymapAction::FocusLeft.spec_id();
    let r = KeymapAction::FocusRight.spec_id();
    let u = KeymapAction::FocusUp.spec_id();
    let w = KeymapAction::FocusDown.spec_id();
    assert(l.subrange(0, 24) =~= prefix);
    assert(r.subrange(0, 24) =~= prefix);
    assert(u.subrange(0, 24) =~= prefix);
    assert(w.subrange(0, 24) =~= prefix);
    assert(l.subrange(24, l.len() as int) =~= "left"@);
    assert(r.subrange(24, r.len() as int) =~= "right"@);
    assert(u.subrange(24, u.len() as int) =~= "up"@);
    assert(w.subrange(24, w.len() as int) =~= "down"@);
    assert forall|p: Platform, a: KeymapAction| #[trigger] focus_direction(a) is Some implies has_suffix(
        #[trigger] a.spec_default_key_on(p),
        seq!['-'] + focus_direction(a)->0,
    ) by {
        let x = a.spec_default_key_on(p);
        let d = focus_direction(a)->0;
        let want = seq!['-'] + d;
        assert(x.subrange(x.len() - want.len(), x.len() as int) =~= want);
    }
    assert forall|store: KeymapView, a: KeymapAction|
        store.bindings.len() == 0 && focus_direction(a) is Some implies has_suffix(
            #[trigger] effective_key(store, a),
            seq!['-'] + focus_direction(a)->0,
        ) by {
        assert(effective_key(store, a) == a.spec_default_key_on(store.platform));
        assert(has_suffix(a.spec_default_key_on(store.platform), seq!['-'] + focus_direction(a)->0));
    }
}

/// The default chords use the platform's command modifier: on macOS every
/// default but New terminal's (`ctrl-~`) and Toggle zoom's (`shift-escape`)
/// starts with `cmd-`; elsewhere every default but Toggle zoom's starts with
/// `ctrl-`.
pub proof fn lemma_defaults_use_the_platform_modifier()
    ensures
        forall|a: KeymapAction|
            a != KeymapAction::NewTerminal && a != KeymapAction::ToggleZoom ==> has_prefix(
                #[trigger] a.spec_default_key_on(Platform::MacOs),
                "cmd-"@,
            ),
        forall|a: KeymapAction| a != KeymapAction::ToggleZoom ==> has_prefix(
            #[trigger] a.spec_default_key_on(Platform::Other),
            "ctrl-"@,
        ),
        KeymapAction::NewTerminal.spec_default_key_on(Platform::MacOs) == "ctrl-~"@,
        forall|p: Platform| #[trigger] KeymapAction::ToggleZoom.spec_default_key_on(p) == "shift-escape"@,
{
    reveal_strlit("cmd-");
    reveal_strlit("ctrl-");
    reveal_strlit("cmd-w");
    reveal_strlit("ctrl-~");
    reveal_strlit("cmd-k cmd-left");
    reveal_strlit("cmd-k cmd-right");
    reveal_strlit("cmd-k cmd-up");
    reveal_strlit("cmd-k cmd-down");
    reveal_strlit("cmd-shift-p");
    reveal_strlit("cmd-,");
    reveal_strlit("ctrl-w");
    reveal_strlit("ctrl-k ctrl-left");
    reveal_strlit("ctrl-k ctrl-right");
    reveal_strlit("ctrl-k ctrl-up");
    reveal_strlit("ctrl-k ctrl-down");
    reveal_strlit("ctrl-shift-p");
    reveal_strlit("ctrl-,");
    assert forall|a: KeymapAction|
        a != KeymapAction::NewTerminal && a != KeymapAction::ToggleZoom implies has_prefix(
            #[trigger] a.spec_default_key_on(Platform::MacOs),
            "cmd-"@,
        ) by {
        assert(a.spec_default_key_on(Platform::MacOs).subrange(0, 4) =~= "cmd-"@);
    }
    assert forall|a: KeymapAction| a != KeymapAction::ToggleZoom implies has_prefix(
        #[trigger] a.spec_default_key_on(Platform::Other),
        "ctrl-"@,
    ) by {
        assert(a.spec_default_key_on(Platform::Other).subrange(0, 5) =~= "ctrl-"@);
    }
}

/// No action other than `action` uses `key`: then there is no conflict from
/// any position on.
pub proof fn lemma_unused_means_no_conflict(store: KeymapView, action: KeymapAction, key: Seq<char>, from: int)
    requires
        forall|other: KeymapAction| other != action ==> #[trigger] effective_key(store, other) != key,
    ensures
        first_conflict(store, action, key, from) is None,
    decreases 9 - from,
{
    if 0 <= from < 9 {
        lemma_unused_means_no_conflict(store, action, key, from + 1);
    }
}

/// A keymap without overrides (such as [`KeymapStore::bare`]) binds no chord
/// to two actions, and setting an action back to its default chord meets no
/// conflict, so [`KeymapStore::set`] accepts it when its keystrokes parse.
pub proof fn lemma_defaults_are_conflict_free(store: KeymapView, action: KeymapAction)
    requires
        store.bindings.len() == 0,
    ensures
        forall|a: KeymapAction, b: KeymapAction| a != b ==> effective_key(store, a) != effective_key(store, b),
        chord_is_valid(action.spec_default_key_on(store.platform), true),
        first_conflict(store, action, action.spec_default_key_on(store.platform), 0) is None,
{
    lemma_default_chords_distinct(store.platform);
    assert forall|a: KeymapAction| #[trigger] effective_key(store, a) == a.spec_default_key_on(store.platform) by {}
    assert forall|a: KeymapAction, b: KeymapAction| a != b implies effective_key(store, a) != effective_key(store, b) by {
        assert(effective_key(store, a) == a.spec_default_key_on(store.platform));
        assert(effective_key(store, b) == b.spec_default_key_on(store.platform));
    }
    lemma_unused_means_no_conflict(store, action, action.spec_default_key_on(store.platform), 0);
}

/// Filtering an identifier out keeps the others' lookups.
pub proof fn lemma_filter_bindings(bindings: Seq<(Seq<char>, Seq<char>)>, id: Seq<char>)
    requires
        distinct_ids(bindings),
    ensures
        distinct_ids(without_binding(bindings, id)),
        forall|i: int| 0 <= i < without_binding(bindings, id).len() ==> without_binding(bindings, id)[i].0 != id,
        forall|probe: Seq<char>| #[trigger] binding_for(without_binding(bindings, id), probe) == if probe == id {
            None
        } else {
            binding_for(bindings, probe)
        },
    decreases bindings.len(),
{
    if bindings.len() > 0 {
        let rest = bindings.drop_last();
        lemma_filter_bindings(rest, id);
        let filtered_rest = without_binding(rest, id);
        assert forall|k: int| 0 <= k < filtered_rest.len() implies #[trigger] filtered_rest[k].0 != bindings.last().0 by {
            assert(filtered_rest.contains(filtered_rest[k]));
            lemma_without_binding_contains(rest, id, filtered_rest[k]);
            let j = choose|j: int| 0 <= j < rest.len() && rest[j] == filtered_rest[k];
            assert(bindings[j] == rest[j]);
        }
        if bindings.last().0 != id {
            assert(without_binding(bindings, id) == filtered_rest.push(bindings.last()));
            assert(without_binding(bindings, id).drop_last() =~= filtered_rest);
            assert(without_binding(bindings, id).last() == bindings.last());
        }
        assert forall|probe: Seq<char>| #[trigger] binding_for(without_binding(bindings, id), probe) == if probe == id {
            None
        } else {
            binding_for(bindings, probe)
        } by {
            if bindings.last().0 != id {
                assert(binding_for(without_binding(bindings, id), probe) == if bindings.last().0 == probe {
                    Some(bindings.last().1)
                } else {
                    binding_for(filtered_rest, probe)
                });
            }
        }
    }
}

/// A store in which no two actions share a chord keeps that property across
/// every successful `set`: the keymap never binds one chord to two actions.
pub proof fn lemma_set_keeps_chords_unique(
    before: KeymapView,
    after: KeymapView,
    action: KeymapAction,
    key: Seq<char>,
)
    requires
        forall|a: KeymapAction, b: KeymapAction| a != b ==> effective_key(before, a) != effective_key(before, b),
        first_conflict(before, action, key, 0) is None,
        effective_key(after, action) == key,
        forall|other: KeymapAction| other != action ==> #[trigger] effective_key(after, other) == effective_key(before, other),
    ensures
        forall|a: KeymapAction, b: KeymapAction| a != b ==> effective_key(after, a) != effective_key(after, b),
{
    assert forall|other: KeymapAction| other != action implies effective_key(before, other) != key by {
        lemma_all_actions_lists(other);
        lemma_no_conflict_means_unused(before, action, key, other, 0);
    }
}

/// Every action is listed.
pub proof fn lemma_all_actions_lists(action: KeymapAction)
    ensures
        all_actions().subrange(0, 9).contains(action),
{
    let all = all_actions().subrange(0, 9);
    assert(all =~= all_actions());
    match action {
        KeymapAction::CloseItem => assert(all[0] == action),
        KeymapAction::NewTerminal => assert(all[1] == action),
        KeymapAction::FocusLeft => assert(all[2] == action),
        KeymapAction::FocusRight => assert(all[3] == action),
        KeymapAction::FocusUp => assert(all[4] == action),
        KeymapAction::FocusDown => assert(all[5] == action),
        KeymapAction::ToggleZoom => assert(all[6] == action),
        KeymapAction::CommandPalette => assert(all[7] == action),
        KeymapAction::OpenSettings => assert(all[8] == action),
    }
}

/// No conflict from position `from` on means no later action uses the chord.
pub proof fn lemma_no_conflict_means_unused(
    store: KeymapView,
    action: KeymapAction,
    key: Seq<char>,
    other: KeymapAction,
    from: int,
)
    requires
        0 <= from <= 9,
        first_conflict(store, action, key, from) is None,
        other != action,
        all_actions().subrange(from, 9).contains(other),
    ensures
        effective_key(store, other) != key,
    decreases 9 - from,
{
    if from < 9 {
        if all_actions()[from] == other {
        } else {
            assert(all_actions().subrange(from, 9) =~= seq![all_actions()[from]] + all_actions().subrange(from + 1, 9));
            let j = choose|j: int| 0 <= j < all_actions().subrange(from, 9).len() && all_actions().subrange(from, 9)[j] == other;
            assert(j > 0);
            assert(all_actions().subrange(from + 1, 9)[j - 1] == other);
            lemma_no_conflict_means_unused(store, action, key, other, from + 1);
        }
    }
}

/// What a keymap reloads as: the overrides it wrote back (see
/// [`KeymapStore::bindings`]), read on the same platform, give every action
/// the chord it had; actions without an override keep their default.
pub proof fn lemma_reloaded_keymap_keeps_every_chord(saved: KeymapView, reloaded: KeymapView)
    requires
        saved.platform == reloaded.platform,
        forall|id: Seq<char>| #[trigger] binding_for(reloaded.bindings, id) == binding_for(saved.bindings, id),
    ensures
        forall|action: KeymapAction| #[trigger] effective_key(reloaded, action) == effective_key(saved, action),
        forall|action: KeymapAction|
            binding_for(saved.bindings, action.spec_id()) is None ==> #[trigger] effective_key(reloaded, action)
                == action.spec_default_key_on(saved.platform),
{
    assert forall|action: KeymapAction| #[trigger] effective_key(reloaded, action) == effective_key(saved, action) by {
        assert(binding_for(reloaded.bindings, action.spec_id()) == binding_for(saved.bindings, action.spec_id()));
    }
    assert forall|action: KeymapAction|
        binding_for(saved.bindings, action.spec_id()) is None implies #[trigger] effective_key(reloaded, action)
            == action.spec_default_key_on(saved.platform) by {
        assert(binding_for(reloaded.bindings, action.spec_id()) == binding_for(saved.bindings, action.spec_id()));
    }
}

/// The keymap file inside the configuration directory `config_root`.
pub fn keymap_file(config_root: &str) -> (file: String)
    ensures
        file@ == path_join(config_root@, "keymap.toml"@),
{
    join_path(config_root, KEYMAP_FILE)
}

} // verus!
