//! Chartr's own icons, compiled in, with the editor's asset catalog as the
//! fallback.
//!
//! Components ask for icons by path. Chartr answers for the handful it owns
//! and delegates every other asset; a directory listing is the fallback's,
//! with Chartr's icons under that directory added once each.

use vstd::prelude::*;

use crate::text::{chars_of, has_prefix, starts_with};

verus! {

/// The one icon shared by every way of opening a plugin pane.
pub const PLUGIN_LAUNCHER_ICON_PATH: &'static str = "icons/full_screen.svg";

/// The icons Chartr embeds, by path.
pub open spec fn embedded_paths() -> Seq<Seq<char>> {
    seq![
        "icons/plus.svg"@,
        "icons/full_screen.svg"@,
        "icons/close.svg"@,
        "icons/tab.svg"@,
        "icons/menu.svg"@,
        "icons/arrow_left.svg"@,
        "icons/arrow_right.svg"@,
        "icons/rotate_cw.svg"@,
        "icons/stop.svg"@,
        "icons/lock.svg"@,
        "icons/public.svg"@,
        "icons/agent_ai_programming.svg"@,
        "icons/agent_chat_gpt.svg"@,
        "icons/agent_claude.svg"@,
        "icons/agent_copilot.svg"@,
        "icons/agent_deepseek.svg"@,
        "icons/agent_google_gemini.svg"@,
        "icons/agent_grok.svg"@,
        "icons/agent_mistral.svg"@,
        "icons/agent_pi.svg"@,
        "icons/agent_qwen.svg"@,
    ]
}

/// The fallback listing with each embedded name under `prefix` appended,
/// in table order, unless the listing already has it.
pub open spec fn merged_listing(listing: Seq<Seq<char>>, names: Seq<Seq<char>>, prefix: Seq<char>) -> Seq<
    Seq<char>,
>
    decreases names.len(),
{
    if names.len() == 0 {
        listing
    } else {
        let merged = merged_listing(listing, names.drop_last(), prefix);
        let name = names.last();
        if has_prefix(name, prefix) && !merged.contains(name) {
            merged.push(name)
        } else {
            merged
        }
    }
}

pub open spec fn string_views(strings: Seq<String>) -> Seq<Seq<char>> {
    strings.map_values(|s: String| s@)
}

/// Chartr's asset source.
pub struct Assets;

impl Assets {
    /// The paths of the embedded icons, in table order.
    pub fn embedded(&self) -> (paths: Vec<&'static str>)
        ensures
            paths@.map_values(|p: &str| p@) == embedded_paths(),
    {
        let paths = vec![
            "icons/plus.svg",
            PLUGIN_LAUNCHER_ICON_PATH,
            "icons/close.svg",
            "icons/tab.svg",
            "icons/menu.svg",
            "icons/arrow_left.svg",
            "icons/arrow_right.svg",
            "icons/rotate_cw.svg",
            "icons/stop.svg",
            "icons/lock.svg",
            "icons/public.svg",
            "icons/agent_ai_programming.svg",
            "icons/agent_chat_gpt.svg",
            "icons/agent_claude.svg",
            "icons/agent_copilot.svg",
            "icons/agent_deepseek.svg",
            "icons/agent_google_gemini.svg",
            "icons/agent_grok.svg",
            "icons/agent_mistral.svg",
            "icons/agent_pi.svg",
            "icons/agent_qwen.svg",
        ];
        assert(paths@.map_values(|p: &str| p@) =~= embedded_paths());
        paths
    }

    /// Where `path` sits in the embedded table, if Chartr embeds it.
    pub fn embedded_index(&self, path: &str) -> (index: Option<usize>)
        ensures
            match index {
                Some(i) => i < embedded_paths().len() && embedded_paths()[i as int] == path@ && forall|j: int|
                    0 <= j < i ==> embedded_paths()[j] != path@,
                None => !embedded_paths().contains(path@),
            },
    {
        let paths = self.embedded();
        let ghost views = paths@.map_values(|p: &str| p@);
        let wanted = chars_of(path);
        let mut i: usize = 0;
        while i < paths.len()
            invariant
                views == paths@.map_values(|p: &str| p@),
                views == embedded_paths(),
                wanted@ == path@,
                i <= paths@.len(),
                forall|j: int| 0 <= j < i ==> views[j] != path@,
            decreases paths@.len() - i,
        {
            assert(views[i as int] == paths@[i as int]@);
            if crate::text::same_chars(&chars_of(paths[i]), &wanted) {
                return Some(i);
            }
            i = i + 1;
        }
        proof {
            if views.contains(path@) {
                let j = choose|j: int| 0 <= j < views.len() && views[j] == path@;
                assert(views[j] != path@);
            }
        }
        None
    }

    /// The listing of `prefix`: the fallback's, then Chartr's icons under
    /// it that the fallback did not list.
    pub fn listing(&self, fallback: Vec<String>, prefix: &str) -> (names: Vec<String>)
        ensures
            string_views(names@) == merged_listing(string_views(fallback@), embedded_paths(), prefix@),
    {
        let paths = self.embedded();
        let ghost views = paths@.map_values(|p: &str| p@);
        let mut names = fallback;
        let mut k: usize = 0;
        assert(embedded_paths().subrange(0, 0) =~= Seq::<Seq<char>>::empty());
        while k < paths.len()
            invariant
                views == paths@.map_values(|p: &str| p@),
                views == embedded_paths(),
                k <= paths@.len(),
                string_views(names@) == merged_listing(
                    string_views(fallback@),
                    embedded_paths().subrange(0, k as int),
                    prefix@,
                ),
            decreases paths@.len() - k,
        {
            let ghost before = string_views(names@);
            assert(views[k as int] == paths@[k as int]@);
            assert(embedded_paths().subrange(0, k + 1).drop_last() =~= embedded_paths().subrange(
                0,
                k as int,
            ));
            let name = chars_of(paths[k]);
            if starts_with(&name, prefix) {
                let mut present = false;
                let mut j: usize = 0;
                while j < names.len()
                    invariant
                        before == string_views(names@),
                        name@ == views[k as int],
                        j <= names@.len(),
                        present == (exists|t: int| 0 <= t < j && before[t] == name@),
                    decreases names@.len() - j,
                {
                    assert(before[j as int] == names@[j as int]@);
                    if crate::text::same_chars(&chars_of(names[j].as_str()), &name) {
                        present = true;
                    }
                    j = j + 1;
                }
                proof {
                    assert(present == before.contains(name@));
                }
                if !present {
                    names.push(paths[k].to_owned());
                    assert(string_views(names@) =~= before.push(name@));
                }
            }
            k = k + 1;
        }
        assert(embedded_paths().subrange(0, paths@.len() as int) =~= embedded_paths());
        names
    }
}

} // verus!
