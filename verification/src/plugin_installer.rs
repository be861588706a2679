//! The rules of staged plugin installation.
//!
//! A package comes from a Git repository or a local directory, is copied to a
//! staging directory, validated and only then queued for the next start. The
//! copying, cloning and renaming are the application's; what is refused, what
//! a directory name may be, what the trust prompt says and how a failed
//! command is reported are decided here.

use vstd::prelude::*;

use crate::text::{
    append_chars, append_text, chars_of, same_chars, string_from, trim_chars, trimmed,
};

verus! {

/// Where a package comes from.
#[derive(Debug, Clone, PartialEq, Eq)]
pub enum Source {
    /// A Git repository URL.
    Git(String),
    /// A local directory.
    Local(String),
}

pub open spec fn spec_label(source: Source) -> Seq<char> {
    match source {
        Source::Git(url) => url@,
        Source::Local(path) => path@,
    }
}

impl Source {
    /// The source as the user named it: the URL, or the directory's path.
    pub fn label(&self) -> (label: String)
        ensures
            label@ == spec_label(*self),
    {
        match self {
            Source::Git(url) => url.clone(),
            Source::Local(path) => path.clone(),
        }
    }
}

/// A package queued for activation at the next start.
#[derive(Debug, Clone, PartialEq, Eq)]
pub struct Installed {
    pub id: String,
    pub name: String,
    /// An installed copy of the same plugin is replaced.
    pub replaced: bool,
}

/// What a package is.
#[derive(Debug, Clone, Copy, PartialEq, Eq, Structural)]
pub enum PackageKind {
    /// Compiled code; never installed separately.
    Native,
    /// Activates one of Chartr's built-in surfaces.
    Hosted,
    /// Web content.
    Web,
}

/// Why an installation step refused.
#[derive(Debug, Clone, PartialEq, Eq, Structural)]
pub enum InstallError {
    /// The Git URL is empty.
    MissingGitUrl,
    /// A plugin directory name that is not one plain path component.
    InvalidDirectoryName,
    /// The chosen folder contains the managed staging directory.
    SourceContainsStaging,
    /// The user cancelled.
    Cancelled,
}

impl InstallError {
    pub fn message(&self) -> (text: String)
        ensures
            text@ == spec_install_message(*self),
    {
        match self {
            InstallError::MissingGitUrl => "enter a Git repository URL".to_owned(),
            InstallError::InvalidDirectoryName => "invalid plugin directory name".to_owned(),
            InstallError::SourceContainsStaging =>
                "the selected folder contains Chartr's managed plugin staging directory".to_owned(),
            InstallError::Cancelled => "Plugin installation cancelled".to_owned(),
        }
    }
}

pub open spec fn spec_install_message(error: InstallError) -> Seq<char> {
    match error {
        InstallError::MissingGitUrl => "enter a Git repository URL"@,
        InstallError::InvalidDirectoryName => "invalid plugin directory name"@,
        InstallError::SourceContainsStaging =>
            "the selected folder contains Chartr's managed plugin staging directory"@,
        InstallError::Cancelled => "Plugin installation cancelled"@,
    }
}

/// A cancelled installation stops at the next check.
pub fn check_cancelled(cancelled: bool) -> (result: Result<(), InstallError>)
    ensures
        cancelled <==> result == Err::<(), InstallError>(InstallError::Cancelled),
        !cancelled <==> result is Ok,
{
    if cancelled {
        Err(InstallError::Cancelled)
    } else {
        Ok(())
    }
}

/// The URL handed to `git clone`: the input without surrounding white space,
/// refused when nothing is left.
pub open spec fn spec_git_url(url: Seq<char>) -> Result<Seq<char>, InstallError> {
    if trimmed(url).len() == 0 {
        Err(InstallError::MissingGitUrl)
    } else {
        Ok(trimmed(url))
    }
}

pub fn git_clone_url(url: &str) -> (result: Result<String, InstallError>)
    ensures
        match result {
            Ok(u) => spec_git_url(url@) == Ok::<Seq<char>, InstallError>(u@),
            Err(e) => spec_git_url(url@) == Err::<Seq<char>, InstallError>(e),
        },
{
    let t = trim_chars(&chars_of(url));
    if t.len() == 0 {
        Err(InstallError::MissingGitUrl)
    } else {
        Ok(string_from(t.as_slice()))
    }
}

/// The non-empty segments of a path between `/` separators, without `.`
/// segments; `current` is the segment being read.
pub open spec fn path_parts_from(s: Seq<char>, current: Seq<char>) -> Seq<Seq<char>>
    decreases s.len(),
{
    if s.len() == 0 {
        flushed(current)
    } else if s[0] == '/' {
        flushed(current) + path_parts_from(s.drop_first(), Seq::empty())
    } else {
        path_parts_from(s.drop_first(), current.push(s[0]))
    }
}

/// A finished segment, unless it is empty or `.`.
pub open spec fn flushed(segment: Seq<char>) -> Seq<Seq<char>> {
    if segment.len() == 0 || segment == seq!['.'] {
        Seq::empty()
    } else {
        seq![segment]
    }
}

/// `Path::components` on Unix, each component written as text: a leading
/// `/` is the root component `/`; a relative path that starts with a `.`
/// segment has the current-directory component `.`; then the segments, with
/// empty and `.` segments skipped (`..` stands for the parent).
pub open spec fn path_components(p: Seq<char>) -> Seq<Seq<char>> {
    let lead = if p.len() > 0 && p[0] == '/' {
        seq![seq!['/']]
    } else if p == seq!['.'] || (p.len() >= 2 && p[0] == '.' && p[1] == '/') {
        seq![seq!['.']]
    } else {
        Seq::empty()
    };
    lead + path_parts_from(p, Seq::empty())
}

/// The components of `p`.
pub fn components(p: &Vec<char>) -> (parts: Vec<Vec<char>>)
    ensures
        parts@.map_values(|c: Vec<char>| c@) == path_components(p@),
{
    let ghost lead_spec: Seq<Seq<char>> = if p@.len() > 0 && p@[0] == '/' {
        seq![seq!['/']]
    } else if p@ == seq!['.'] || (p@.len() >= 2 && p@[0] == '.' && p@[1] == '/') {
        seq![seq!['.']]
    } else {
        Seq::empty()
    };
    proof {
        if p@ == seq!['.'] {
            assert(p@.len() == 1 && p@[0] == '.');
        }
        if p@.len() == 1 && p@[0] == '.' {
            assert(p@ =~= seq!['.']);
        }
    }
    let mut parts: Vec<Vec<char>> = Vec::new();
    if p.len() > 0 && p[0] == '/' {
        let root: Vec<char> = vec!['/'];
        assert(root@ =~= seq!['/']);
        parts.push(root);
        assert(parts@.map_values(|c: Vec<char>| c@) =~= lead_spec);
    } else if (p.len() == 1 && p[0] == '.') || (p.len() >= 2 && p[0] == '.' && p[1] == '/') {
        let here: Vec<char> = vec!['.'];
        assert(here@ =~= seq!['.']);
        parts.push(here);
        assert(parts@.map_values(|c: Vec<char>| c@) =~= lead_spec);
    } else {
        assert(parts@.map_values(|c: Vec<char>| c@) =~= lead_spec);
    }
    let ghost lead = parts@.map_values(|c: Vec<char>| c@);
    let mut current: Vec<char> = Vec::new();
    let mut i: usize = 0;
    assert(p@.subrange(0, p@.len() as int) =~= p@);
    while i < p.len()
        invariant
            i <= p@.len(),
            path_components(p@) == lead + path_parts_from(p@, Seq::empty()),
            lead + path_parts_from(p@, Seq::empty()) == parts@.map_values(|c: Vec<char>| c@)
                + path_parts_from(p@.subrange(i as int, p@.len() as int), current@),
        decreases p@.len() - i,
    {
        let ghost rest = p@.subrange(i as int, p@.len() as int);
        let ghost before = parts@.map_values(|c: Vec<char>| c@);
        proof {
            assert(rest.drop_first() =~= p@.subrange(i + 1, p@.len() as int));
            assert(rest[0] == p@[i as int]);
        }
        if p[i] == '/' {
            let keep = current.len() > 0 && !(current.len() == 1 && current[0] == '.');
            proof {
                if current@ == seq!['.'] {
                    assert(current@.len() == 1 && current@[0] == '.');
                }
                if current@.len() == 1 && current@[0] == '.' {
                    assert(current@ =~= seq!['.']);
                }
            }
            let segment = current;
            current = Vec::new();
            if keep {
                parts.push(segment);
                proof {
                    assert(parts@.map_values(|c: Vec<char>| c@) =~= before.push(segment@));
                    assert(before + (seq![segment@] + path_parts_from(rest.drop_first(), Seq::empty()))
                        =~= before.push(segment@) + path_parts_from(rest.drop_first(), Seq::empty()));
                }
            } else {
                proof {
                    assert(before + (Seq::<Seq<char>>::empty() + path_parts_from(
                        rest.drop_first(),
                        Seq::empty(),
                    )) =~= before + path_parts_from(rest.drop_first(), Seq::empty()));
                }
            }
            proof {
                assert(current@ =~= Seq::<char>::empty());
            }
        } else {
            current.push(p[i]);
        }
        i = i + 1;
    }
    proof {
        assert(p@.subrange(p@.len() as int, p@.len() as int) =~= Seq::<char>::empty());
    }
    let keep = current.len() > 0 && !(current.len() == 1 && current[0] == '.');
    proof {
        if current@ == seq!['.'] {
            assert(current@.len() == 1 && current@[0] == '.');
        }
        if current@.len() == 1 && current@[0] == '.' {
            assert(current@ =~= seq!['.']);
        }
    }
    let ghost before = parts@.map_values(|c: Vec<char>| c@);
    if keep {
        let segment = current;
        parts.push(segment);
        proof {
            assert(parts@.map_values(|c: Vec<char>| c@) =~= before + seq![segment@]);
        }
    } else {
        proof {
            assert(before + Seq::<Seq<char>>::empty() =~= before);
        }
    }
    parts
}

/// A plugin id names exactly one ordinary directory: a single component
/// that is neither the root, `.` nor `..`.
pub open spec fn spec_plain_directory_name(id: Seq<char>) -> bool {
    let parts = path_components(id);
    parts.len() == 1 && parts[0] != seq!['/'] && parts[0] != seq!['.'] && parts[0] != seq!['.', '.']
}

/// Checks the id of a plugin to uninstall before any directory is removed.
pub fn check_directory_name(id: &str) -> (result: Result<(), InstallError>)
    ensures
        spec_plain_directory_name(id@) <==> result is Ok,
        !spec_plain_directory_name(id@) <==> result == Err::<(), InstallError>(
            InstallError::InvalidDirectoryName,
        ),
{
    let parts = components(&chars_of(id));
    let ghost views = parts@.map_values(|c: Vec<char>| c@);
    if parts.len() != 1 {
        assert(views.len() == parts@.len());
        return Err(InstallError::InvalidDirectoryName);
    }
    let only = &parts[0];
    assert(views[0] == only@);
    let root: Vec<char> = vec!['/'];
    let here: Vec<char> = vec!['.'];
    let up: Vec<char> = vec!['.', '.'];
    assert(root@ =~= seq!['/']);
    assert(here@ =~= seq!['.']);
    assert(up@ =~= seq!['.', '.']);
    if same_chars(only, &root) || same_chars(only, &here) || same_chars(only, &up) {
        Err(InstallError::InvalidDirectoryName)
    } else {
        Ok(())
    }
}

/// Splitting `a`, a separator and `b` gives the segments of `a` (continuing
/// `current`), then those of `b`.
pub proof fn lemma_parts_of_joined(a: Seq<char>, b: Seq<char>, current: Seq<char>)
    ensures
        path_parts_from(a + seq!['/'] + b, current) == path_parts_from(a, current) + path_parts_from(
            b,
            Seq::empty(),
        ),
    decreases a.len(),
{
    let joined = a + seq!['/'] + b;
    if a.len() == 0 {
        assert(joined =~= seq!['/'] + b);
        assert(joined.drop_first() =~= b);
    } else {
        assert(joined[0] == a[0]);
        assert(joined.drop_first() =~= a.drop_first() + seq!['/'] + b);
        if a[0] == '/' {
            lemma_parts_of_joined(a.drop_first(), b, Seq::empty());
            assert(flushed(current) + (path_parts_from(a.drop_first(), Seq::empty()) + path_parts_from(b, Seq::empty()))
                =~= flushed(current) + path_parts_from(a.drop_first(), Seq::empty()) + path_parts_from(b, Seq::empty()));
        } else {
            lemma_parts_of_joined(a.drop_first(), b, current.push(a[0]));
        }
    }
}

/// A plain directory name joined to a non-empty directory names a direct
/// child of it: the components are the directory's and then the name's one
/// component. Uninstalling by such a name cannot reach outside the plugin
/// directories.
pub proof fn lemma_plain_names_stay_inside(base: Seq<char>, id: Seq<char>)
    requires
        base.len() > 0,
        spec_plain_directory_name(id),
    ensures
        path_components(crate::text::path_join(base, id)) == path_components(base) + path_components(id),
        path_components(id).len() == 1,
        path_components(id)[0] != seq!['.', '.'],
{
    let joined = crate::text::path_join(base, id);
    // A plain name has neither a root nor a leading `.` segment.
    assert(!(id.len() > 0 && id[0] == '/')) by {
        if id.len() > 0 && id[0] == '/' {
            assert(path_components(id)[0] == seq!['/']);
        }
    }
    assert(!(id == seq!['.'] || (id.len() >= 2 && id[0] == '.' && id[1] == '/'))) by {
        if id == seq!['.'] || (id.len() >= 2 && id[0] == '.' && id[1] == '/') {
            assert(path_components(id)[0] == seq!['.']);
        }
    }
    assert(path_components(id) =~= path_parts_from(id, Seq::empty()));
    let stem = if base.last() == '/' {
        base.drop_last()
    } else {
        base
    };
    assert(joined =~= stem + seq!['/'] + id);
    lemma_parts_of_joined(stem, id, Seq::empty());
    if base.last() == '/' {
        assert(base =~= stem + seq!['/'] + Seq::<char>::empty());
        lemma_parts_of_joined(stem, Seq::empty(), Seq::empty());
        assert(path_parts_from(Seq::<char>::empty(), Seq::empty()) =~= Seq::<Seq<char>>::empty());
        assert(path_parts_from(stem, Seq::empty()) + Seq::<Seq<char>>::empty() =~= path_parts_from(stem, Seq::empty()));
    }
    assert(path_parts_from(joined, Seq::empty()) == path_parts_from(base, Seq::empty()) + path_parts_from(id, Seq::empty()));
    // The leading component depends only on the first characters, which the
    // join keeps.
    assert(id.len() > 0) by {
        if id.len() == 0 {
            assert(path_parts_from(id, Seq::empty()) =~= Seq::<Seq<char>>::empty());
        }
    }
    assert(joined.len() >= 2);
    assert(joined[0] == base[0]);
    assert(joined != seq!['.']);
    if base.len() >= 2 {
        assert(joined[1] == base[1]);
    } else if base[0] != '/' {
        assert(stem =~= base);
        assert(joined[1] == '/');
        if base[0] == '.' {
            assert(base =~= seq!['.']);
        } else {
            assert(base != seq!['.']);
        }
    }
    let lead_of = |p: Seq<char>| if p.len() > 0 && p[0] == '/' {
        seq![seq!['/']]
    } else if p == seq!['.'] || (p.len() >= 2 && p[0] == '.' && p[1] == '/') {
        seq![seq!['.']]
    } else {
        Seq::<Seq<char>>::empty()
    };
    assert(lead_of(joined) == lead_of(base));
    assert(path_components(joined) == lead_of(joined) + path_parts_from(joined, Seq::empty()));
    assert(path_components(base) == lead_of(base) + path_parts_from(base, Seq::empty()));
    assert(path_components(joined) =~= path_components(base) + path_components(id));
}

/// `Path::starts_with`: the components of `base` begin those of `path`.
pub open spec fn spec_path_within(path: Seq<char>, base: Seq<char>) -> bool {
    let (p, b) = (path_components(path), path_components(base));
    b.len() <= p.len() && p.subrange(0, b.len() as int) == b
}

pub fn path_within(path: &str, base: &str) -> (within: bool)
    ensures
        within == spec_path_within(path@, base@),
{
    let p = components(&chars_of(path));
    let b = components(&chars_of(base));
    let ghost pv = p@.map_values(|c: Vec<char>| c@);
    let ghost bv = b@.map_values(|c: Vec<char>| c@);
    assert(pv.len() == p@.len() && bv.len() == b@.len());
    if b.len() > p.len() {
        return false;
    }
    let mut i: usize = 0;
    while i < b.len()
        invariant
            b@.len() <= p@.len(),
            pv == p@.map_values(|c: Vec<char>| c@),
            bv == b@.map_values(|c: Vec<char>| c@),
            pv == path_components(path@),
            bv == path_components(base@),
            i <= b@.len(),
            forall|j: int| 0 <= j < i ==> pv[j] == bv[j],
        decreases b@.len() - i,
    {
        assert(pv[i as int] == p@[i as int]@ && bv[i as int] == b@[i as int]@);
        if !same_chars(&p[i], &b[i]) {
            assert(pv.subrange(0, bv.len() as int)[i as int] != bv[i as int]);
            assert(pv.subrange(0, bv.len() as int) != bv);
            assert(pv == path_components(path@));
            assert(bv == path_components(base@));
            return false;
        }
        i = i + 1;
    }
    assert(pv.subrange(0, bv.len() as int) =~= bv);
    true
}

/// A local source is refused when the (canonical) staging directory lies
/// inside it: copying it would copy the staging area into itself.
pub fn check_local_source(source: &str, staging: &str) -> (result: Result<(), InstallError>)
    ensures
        spec_path_within(staging@, source@) <==> result == Err::<(), InstallError>(
            InstallError::SourceContainsStaging,
        ),
        !spec_path_within(staging@, source@) <==> result is Ok,
{
    if path_within(staging, source) {
        Err(InstallError::SourceContainsStaging)
    } else {
        Ok(())
    }
}

/// The trust prompt shown before installation. A hosted package names the
/// surface it activates (`unknown` when it names none); a web package lists
/// its declared host access.
pub open spec fn spec_trust_detail(
    source_label: Seq<char>,
    kind: PackageKind,
    surface: Option<Seq<char>>,
    permissions: Seq<char>,
    replacing: bool,
) -> Seq<char> {
    let replacement = if replacing {
        " This replaces the installed copy and preserves its plugin data."@
    } else {
        Seq::empty()
    };
    match kind {
        PackageKind::Hosted => "Source: "@ + source_label
            + ". This package activates Chartr's built-in `"@ + match surface {
            Some(s) => s,
            None => "unknown"@,
        } + "` surface and contains no executable plugin code."@ + replacement,
        _ => "Source: "@ + source_label + ". Declared host access: "@ + permissions + "."@
            + replacement,
    }
}

pub open spec fn opt_text(text: Option<&str>) -> Option<Seq<char>> {
    match text {
        Some(t) => Some(t@),
        None => None,
    }
}

pub fn trust_detail(
    source: &Source,
    kind: PackageKind,
    surface: Option<&str>,
    permissions: &str,
    replacing: bool,
) -> (detail: String)
    requires
        kind != PackageKind::Native,
    ensures
        detail@ == spec_trust_detail(spec_label(*source), kind, opt_text(surface), permissions@, replacing),
{
    let label = chars_of(source.label().as_str());
    let mut out: Vec<char> = Vec::new();
    append_text(&mut out, "Source: ");
    append_chars(&mut out, &label);
    match kind {
        PackageKind::Hosted => {
            append_text(&mut out, ". This package activates Chartr's built-in `");
            match surface {
                Some(s) => append_text(&mut out, s),
                None => append_text(&mut out, "unknown"),
            }
            append_text(&mut out, "` surface and contains no executable plugin code.");
        },
        _ => {
            append_text(&mut out, ". Declared host access: ");
            append_text(&mut out, permissions);
            append_text(&mut out, ".");
        },
    }
    if replacing {
        append_text(&mut out, " This replaces the installed copy and preserves its plugin data.");
    }
    proof {
        let replacement = if replacing {
            " This replaces the installed copy and preserves its plugin data."@
        } else {
            Seq::empty()
        };
        assert(out@ =~= spec_trust_detail(
            spec_label(*source),
            kind,
            opt_text(surface),
            permissions@,
            replacing,
        ));
    }
    string_from(out.as_slice())
}

/// The number of bytes `c` takes in UTF-8 (`char::len_utf8`).
pub open spec fn utf8_width(c: char) -> nat {
    if (c as u32) < 0x80 {
        1
    } else if (c as u32) < 0x800 {
        2
    } else if (c as u32) < 0x10000 {
        3
    } else {
        4
    }
}

/// The number of bytes `s` takes in UTF-8 (`str::len`).
pub open spec fn utf8_len(s: Seq<char>) -> nat
    decreases s.len(),
{
    if s.len() == 0 {
        0
    } else {
        utf8_len(s.drop_last()) + utf8_width(s.last())
    }
}

/// The longest failure detail shown, in bytes; a longer one keeps its tail.
pub const DETAIL_LIMIT: usize = 4000;

/// What a failed command is reported with: its error output, or its
/// standard output when the error output is blank, without surrounding white
/// space; beyond the limit, an ellipsis and the last `DETAIL_LIMIT`
/// characters.
pub open spec fn spec_command_detail(stderr: Seq<char>, stdout: Seq<char>) -> Seq<char> {
    let detail = if trimmed(stderr).len() == 0 {
        trimmed(stdout)
    } else {
        trimmed(stderr)
    };
    if utf8_len(detail) <= DETAIL_LIMIT {
        detail
    } else {
        let start = if detail.len() > DETAIL_LIMIT {
            detail.len() - DETAIL_LIMIT
        } else {
            0
        };
        seq!['\u{2026}'] + detail.subrange(start, detail.len() as int)
    }
}

/// Whether `s` takes at most `limit` bytes in UTF-8.
fn fits_utf8(s: &Vec<char>, limit: usize) -> (fits: bool)
    ensures
        fits == (utf8_len(s@) <= limit),
{
    let mut total: usize = 0;
    let mut i: usize = 0;
    while i < s.len()
        invariant
            i <= s@.len(),
            total == utf8_len(s@.subrange(0, i as int)),
            total <= limit,
        decreases s@.len() - i,
    {
        let c = s[i];
        let w: usize = if (c as u32) < 0x80 {
            1
        } else if (c as u32) < 0x800 {
            2
        } else if (c as u32) < 0x10000 {
            3
        } else {
            4
        };
        proof {
            assert(s@.subrange(0, i + 1).drop_last() =~= s@.subrange(0, i as int));
        }
        if w > limit - total {
            proof {
                lemma_utf8_len_prefix(s@, i + 1);
            }
            return false;
        }
        total = total + w;
        i = i + 1;
    }
    assert(s@.subrange(0, s@.len() as int) =~= s@);
    true
}

/// A string takes at least as many bytes as any of its prefixes.
pub proof fn lemma_utf8_len_prefix(s: Seq<char>, n: int)
    requires
        0 <= n <= s.len(),
    ensures
        utf8_len(s.subrange(0, n)) <= utf8_len(s),
    decreases s.len() - n,
{
    if n < s.len() {
        lemma_utf8_len_prefix(s, n + 1);
        assert(s.subrange(0, n + 1).drop_last() =~= s.subrange(0, n));
    } else {
        assert(s.subrange(0, n) =~= s);
    }
}

/// The detail a failed command is reported with.
pub fn command_detail(stderr: &str, stdout: &str) -> (detail: String)
    ensures
        detail@ == spec_command_detail(stderr@, stdout@),
{
    let err = trim_chars(&chars_of(stderr));
    let detail = if err.len() == 0 {
        trim_chars(&chars_of(stdout))
    } else {
        err
    };
    if fits_utf8(&detail, DETAIL_LIMIT) {
        return string_from(detail.as_slice());
    }
    let start = if detail.len() > DETAIL_LIMIT {
        detail.len() - DETAIL_LIMIT
    } else {
        0
    };
    let mut out: Vec<char> = vec!['\u{2026}'];
    let mut i = start;
    while i < detail.len()
        invariant
            start <= i <= detail@.len(),
            out@ == seq!['\u{2026}'] + detail@.subrange(start as int, i as int),
        decreases detail@.len() - i,
    {
        out.push(detail[i]);
        assert(detail@.subrange(start as int, i + 1) =~= detail@.subrange(start as int, i as int).push(
            detail@[i as int],
        ));
        i = i + 1;
    }
    string_from(out.as_slice())
}

} // verus!
