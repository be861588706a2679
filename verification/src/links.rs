//! Opening a path that a terminal printed.
//!
//! Compilers and tools print locations such as `src/main.rs:12:3`. The text
//! is tried as a path first, then with up to two trailing `:<number>`
//! suffixes removed; relative paths resolve against the terminal's working
//! directory. Which candidate exists is the file system's to say.

use vstd::prelude::*;

use crate::browser::{last_colon, last_colon_exec};
use crate::text::{chars_of, join_path, parse_unsigned, parsed_unsigned, path_join, string_from};

verus! {

/// `text` as a path, relative to `base` when one is known.
pub open spec fn resolved(text: Seq<char>, base: Option<Seq<char>>) -> Seq<char> {
    match base {
        Some(b) => path_join(b, text),
        None => text,
    }
}

/// `path` without a trailing `:<number>` (a number that parses as `u32`).
pub open spec fn without_location(path: Seq<char>) -> Option<Seq<char>> {
    match last_colon(path) {
        Some(i) => if parsed_unsigned(path.subrange(i + 1, path.len() as int), u32::MAX as nat) is Some {
            Some(path.subrange(0, i))
        } else {
            None
        },
        None => None,
    }
}

/// The paths to try, in order.
pub open spec fn spec_path_candidates(text: Seq<char>, base: Option<Seq<char>>) -> Seq<Seq<char>> {
    let direct = seq![resolved(text, base)];
    match without_location(text) {
        None => direct,
        Some(line) => match without_location(line) {
            None => direct.push(resolved(line, base)),
            Some(file) => direct.push(resolved(line, base)).push(resolved(file, base)),
        },
    }
}

pub open spec fn opt_view(text: Option<&str>) -> Option<Seq<char>> {
    match text {
        Some(t) => Some(t@),
        None => None,
    }
}

fn resolve(text: &str, base: Option<&str>) -> (path: String)
    ensures
        path@ == resolved(text@, opt_view(base)),
{
    match base {
        Some(b) => join_path(b, text),
        None => text.to_owned(),
    }
}

fn strip_location(path: &Vec<char>) -> (stripped: Option<Vec<char>>)
    ensures
        match stripped {
            Some(s) => without_location(path@) == Some(s@),
            None => without_location(path@) is None,
        },
{
    let n = path.len();
    match last_colon_exec(path) {
        Some(i) => {
            assert(i < n);
            if parse_unsigned(path, i + 1, 4294967295u64).is_some() {
                let mut out: Vec<char> = Vec::new();
                let mut j: usize = 0;
                while j < i
                    invariant
                        i < path@.len(),
                        j <= i,
                        out@ == path@.subrange(0, j as int),
                    decreases i - j,
                {
                    out.push(path[j]);
                    assert(path@.subrange(0, j + 1) =~= path@.subrange(0, j as int).push(path@[j as int]));
                    j = j + 1;
                }
                Some(out)
            } else {
                None
            }
        },
        None => None,
    }
}

/// The paths to try for `text` printed in a terminal working in `base`.
pub fn path_candidates(text: &str, base: Option<&str>) -> (candidates: Vec<String>)
    ensures
        candidates@.map_values(|c: String| c@) == spec_path_candidates(text@, opt_view(base)),
{
    let mut candidates: Vec<String> = Vec::new();
    candidates.push(resolve(text, base));
    let chars = chars_of(text);
    match strip_location(&chars) {
        None => {
            assert(candidates@.map_values(|c: String| c@) =~= spec_path_candidates(text@, opt_view(base)));
        },
        Some(line) => {
            let line_text = string_from(line.as_slice());
            candidates.push(resolve(line_text.as_str(), base));
            match strip_location(&line) {
                None => {
                    assert(candidates@.map_values(|c: String| c@) =~= spec_path_candidates(
                        text@,
                        opt_view(base),
                    ));
                },
                Some(file) => {
                    let file_text = string_from(file.as_slice());
                    candidates.push(resolve(file_text.as_str(), base));
                    assert(candidates@.map_values(|c: String| c@) =~= spec_path_candidates(
                        text@,
                        opt_view(base),
                    ));
                },
            }
        },
    }
    candidates
}

} // verus!
