//! Which folder a launch asked Chartr to open.
//!
//! A desktop launcher controls the process working directory (on macOS that
//! is commonly `/`), so it is never evidence that the user opened a project.
//! Only a path given on the command line counts; a relative one resolves
//! against the shell's directory, as users expect from `Chartr .`.

use vstd::prelude::*;

use crate::text::{chars_of, has_prefix, join_path, path_join, starts_with};

verus! {

/// The folder named by the arguments (the program name first), resolved
/// against `cwd`: the first argument after the program, or the one after a
/// leading `--`; none when there is none or it is macOS's `-psn_` launch
/// metadata.
pub open spec fn spec_opened_path(args: Seq<Seq<char>>, cwd: Seq<char>) -> Option<Seq<char>> {
    if args.len() < 2 {
        None
    } else {
        let first = args[1];
        let argument = if first == "--"@ {
            if args.len() < 3 {
                None
            } else {
                Some(args[2])
            }
        } else {
            Some(first)
        };
        match argument {
            None => None,
            Some(a) => if has_prefix(a, "-psn_"@) {
                None
            } else {
                Some(path_join(cwd, a))
            },
        }
    }
}

pub open spec fn arg_views(args: Seq<String>) -> Seq<Seq<char>> {
    args.map_values(|a: String| a@)
}

/// The folder a launch explicitly opened, if any.
pub fn opened_path_from_args(args: &Vec<String>, cwd: &str) -> (opened: Option<String>)
    ensures
        match spec_opened_path(arg_views(args@), cwd@) {
            Some(p) => opened matches Some(o) && o@ == p,
            None => opened is None,
        },
{
    let ghost views = arg_views(args@);
    if args.len() < 2 {
        return None;
    }
    assert(views[1] == args@[1]@);
    let first = chars_of(args[1].as_str());
    let dashes = chars_of("--");
    let is_dashes = crate::text::same_chars(&first, &dashes);
    let argument: &String = if is_dashes {
        if args.len() < 3 {
            return None;
        }
        assert(views[2] == args@[2]@);
        &args[2]
    } else {
        &args[1]
    };
    let chars = chars_of(argument.as_str());
    if starts_with(&chars, "-psn_") {
        return None;
    }
    Some(join_path(cwd, argument.as_str()))
}

} // verus!
