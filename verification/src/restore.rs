//! Start-up decisions: which spaces are listed, which one is active first,
//! and whether each saved plugin item can be brought back.
//!
//! The list always starts with the free-sessions space for work outside a
//! project, followed by the registered folders and the folders the saved
//! state still knows.
//!
//! Plugin items are restored once, after the session backend first settles.
//! Each saved item either becomes a live pane again or is reported, with the
//! reason, in one problem message.

use vstd::prelude::*;

use crate::backend::{Backend, BackendView};
use crate::persistence::{PersistedSpace, SpaceKind};
use crate::text::{append_chars, append_text, chars_of, string_from};

verus! {

/// Where the free-sessions space works: the configured directory, else the
/// home directory, provided the one chosen is absolute; otherwise the
/// working directory.
pub open spec fn spec_free_sessions_home(configured: Option<Seq<char>>, home: Option<Seq<char>>, cwd: Seq<char>) -> Seq<char> {
    let chosen = match configured {
        Some(c) => Some(c),
        None => home,
    };
    match chosen {
        Some(p) => if p.len() > 0 && p[0] == '/' {
            p
        } else {
            cwd
        },
        None => cwd,
    }
}

pub fn free_sessions_home(configured: Option<&str>, home: Option<&str>, cwd: &str) -> (path: String)
    ensures
        path@ == spec_free_sessions_home(opt_text(configured), opt_text(home), cwd@),
{
    let chosen = match configured {
        Some(c) => Some(c),
        None => home,
    };
    match chosen {
        Some(p) => {
            let chars = chars_of(p);
            if chars.len() > 0 && chars[0] == '/' {
                p.to_owned()
            } else {
                cwd.to_owned()
            }
        },
        None => cwd.to_owned(),
    }
}

pub open spec fn opt_text(text: Option<&str>) -> Option<Seq<char>> {
    match text {
        Some(t) => Some(t@),
        None => None,
    }
}

/// Where a listed space comes from.
#[derive(Debug, Clone, Copy, PartialEq, Eq, Structural)]
pub enum Seat {
    /// The free-sessions space.
    FreeSessions,
    /// The registry's space at this index.
    Registered(usize),
    /// The saved folder space at this index.
    Saved(usize),
}

/// The candidate paths are numbered: the free-sessions home first, then the
/// registry's spaces, then the saved spaces. This is a seat's number.
pub open spec fn path_slot(seat: Seat, registry_count: int) -> int {
    match seat {
        Seat::FreeSessions => 0,
        Seat::Registered(i) => 1 + i,
        Seat::Saved(j) => 1 + registry_count + j,
    }
}

/// The free-sessions space, then the first `n` registry spaces that are not
/// at the free-sessions home. `same[a][b]` says whether candidate `a` is at
/// the same path as candidate `b`.
pub open spec fn registry_seats(same: Seq<Seq<bool>>, n: int) -> Seq<Seat>
    decreases n,
{
    if n <= 0 {
        seq![Seat::FreeSessions]
    } else {
        let before = registry_seats(same, n - 1);
        if same[n][0] {
            before
        } else {
            before.push(Seat::Registered((n - 1) as usize))
        }
    }
}

/// Then each of the first `n` saved spaces that is a folder with a path
/// (`saved_ok`) and whose path no listed space shares.
pub open spec fn saved_seats(same: Seq<Seq<bool>>, saved_ok: Seq<bool>, registry_count: int, n: int) -> Seq<Seat>
    decreases n,
{
    if n <= 0 {
        registry_seats(same, registry_count)
    } else {
        let before = saved_seats(same, saved_ok, registry_count, n - 1);
        if saved_ok[n - 1] && unshared(same, before, registry_count, registry_count + n) {
            before.push(Seat::Saved((n - 1) as usize))
        } else {
            before
        }
    }
}

/// No space of `listed` is at the path of candidate `slot`.
pub open spec fn unshared(same: Seq<Seq<bool>>, listed: Seq<Seat>, registry_count: int, slot: int) -> bool {
    forall|k: int| 0 <= k < listed.len() ==> !#[trigger] same[path_slot(listed[k], registry_count)][slot]
}

/// The spaces listed at start-up, by where each comes from.
pub open spec fn spec_seats(same: Seq<Seq<bool>>, saved_ok: Seq<bool>, registry_count: int) -> Seq<Seat> {
    saved_seats(same, saved_ok, registry_count, saved_ok.len() as int)
}

pub open spec fn matrix(same: Seq<Vec<bool>>) -> Seq<Seq<bool>> {
    same.map_values(|row: Vec<bool>| row@)
}

/// Lists the spaces at start-up (see [`spec_seats`]).
pub fn seat_spaces(same: &Vec<Vec<bool>>, registry_count: usize, saved_ok: &Vec<bool>) -> (seats: Vec<Seat>)
    requires
        same@.len() == 1 + registry_count + saved_ok@.len(),
        forall|i: int| 0 <= i < same@.len() ==> #[trigger] same@[i]@.len() == same@.len(),
    ensures
        seats@ == spec_seats(matrix(same@), saved_ok@, registry_count as int),
{
    let ghost m = matrix(same@);
    let total: usize = same.len();
    let mut seats: Vec<Seat> = Vec::new();
    seats.push(Seat::FreeSessions);
    let mut i: usize = 0;
    assert(seats@ =~= registry_seats(m, 0));
    while i < registry_count
        invariant
            m == matrix(same@),
            total == same@.len(),
            same@.len() == 1 + registry_count + saved_ok@.len(),
            forall|i: int| 0 <= i < same@.len() ==> #[trigger] same@[i]@.len() == same@.len(),
            i <= registry_count,
            seats@ == registry_seats(m, i as int),
            forall|k: int| 0 <= k < seats@.len() ==> 0 <= #[trigger] path_slot(seats@[k], registry_count as int) < 1 + i,
        decreases registry_count - i,
    {
        assert(m[i + 1] == same@[i + 1]@);
        if !same[i + 1][0] {
            let ghost before = seats@;
            seats.push(Seat::Registered(i));
            assert forall|k: int| 0 <= k < seats@.len() implies 0 <= #[trigger] path_slot(seats@[k], registry_count as int) < 1 + i + 1 by {
                if k < before.len() {
                    assert(path_slot(before[k], registry_count as int) < 1 + i);
                }
            }
        }
        i = i + 1;
    }
    let mut j: usize = 0;
    let r = registry_count;
    while j < saved_ok.len()
        invariant
            m == matrix(same@),
            same@.len() == 1 + r + saved_ok@.len(),
            forall|i: int| 0 <= i < same@.len() ==> #[trigger] same@[i]@.len() == same@.len(),
            total == same@.len(),
            j <= saved_ok@.len(),
            seats@ == saved_seats(m, saved_ok@, r as int, j as int),
            forall|k: int| 0 <= k < seats@.len() ==> 0 <= #[trigger] path_slot(seats@[k], r as int) < 1 + r + j,
        decreases saved_ok@.len() - j,
    {
        let slot = 1 + r + j;
        let mut fresh = true;
        if saved_ok[j] {
            let mut k: usize = 0;
            while k < seats.len()
                invariant
                    m == matrix(same@),
                    same@.len() == 1 + r + saved_ok@.len(),
                    forall|i: int| 0 <= i < same@.len() ==> #[trigger] same@[i]@.len() == same@.len(),
                    j < saved_ok@.len(),
                    slot == 1 + r + j,
                    k <= seats@.len(),
                    forall|q: int| 0 <= q < seats@.len() ==> 0 <= #[trigger] path_slot(seats@[q], r as int) < 1 + r + j,
                    fresh == forall|q: int| 0 <= q < k ==> !#[trigger] m[path_slot(seats@[q], r as int)][slot as int],
                decreases seats@.len() - k,
            {
                assert(path_slot(seats@[k as int], r as int) < 1 + r + j);
                let at: usize = match seats[k] {
                    Seat::FreeSessions => 0,
                    Seat::Registered(i) => 1 + i,
                    Seat::Saved(q) => 1 + r + q,
                };
                assert(at as int == path_slot(seats@[k as int], r as int));
                assert(m[at as int] == same@[at as int]@);
                if same[at][slot] {
                    fresh = false;
                }
                proof {
                    if !fresh {
                        if m[path_slot(seats@[k as int], r as int)][slot as int] {
                            assert(!(forall|q: int| 0 <= q < k + 1 ==> !#[trigger] m[path_slot(seats@[q], r as int)][slot as int]));
                        }
                    }
                }
                k = k + 1;
            }
        }
        proof {
            if saved_ok@[j as int] {
                assert(fresh == unshared(m, seats@, r as int, slot as int));
            }
            assert(slot as int == r + (j + 1));
        }
        if saved_ok[j] && fresh {
            let ghost before = seats@;
            seats.push(Seat::Saved(j));
            assert forall|k: int| 0 <= k < seats@.len() implies 0 <= #[trigger] path_slot(seats@[k], r as int) < 1 + r + j + 1 by {
                if k < before.len() {
                    assert(path_slot(before[k], r as int) < 1 + r + j);
                }
            }
        }
        j = j + 1;
    }
    seats
}

/// A space as the start-up list names it: its name, path and kind.
pub struct SpaceDescriptor {
    pub name: String,
    pub path: String,
    /// `AdHoc` for the free-sessions space, `Folder` for the others.
    pub kind: SpaceKind,
}

/// A space of the folder registry: its name and path.
pub struct RegisteredSpace {
    pub name: String,
    pub path: String,
}

/// A saved space can be listed again: a folder that has a path.
pub open spec fn saved_listable(space: PersistedSpace) -> bool {
    space.kind == SpaceKind::Folder && space.path is Some
}

/// The name, path and kind a seat stands for.
pub open spec fn descriptor_of(
    seat: Seat,
    home: Seq<char>,
    registry: Seq<RegisteredSpace>,
    saved: Seq<PersistedSpace>,
) -> (Seq<char>, Seq<char>, SpaceKind) {
    match seat {
        Seat::FreeSessions => ("Free sessions"@, home, SpaceKind::AdHoc),
        Seat::Registered(i) => (registry[i as int].name@, registry[i as int].path@, SpaceKind::Folder),
        Seat::Saved(j) => (saved[j as int].name@, saved[j as int].path.unwrap()@, SpaceKind::Folder),
    }
}

pub open spec fn descriptor_views(descriptors: Seq<SpaceDescriptor>) -> Seq<(Seq<char>, Seq<char>, SpaceKind)> {
    descriptors.map_values(|d: SpaceDescriptor| (d.name@, d.path@, d.kind))
}

/// The spaces listed at start-up: the free-sessions space at `home`, the
/// registry's spaces not at `home`, then each saved folder space whose path
/// no listed space shares. `same` compares the candidate paths, numbered as
/// in [`path_slot`]. (The list is never empty, so the working directory is
/// never needed as a last resort.)
pub fn space_descriptors(
    home: &String,
    registry: &Vec<RegisteredSpace>,
    saved: &Vec<PersistedSpace>,
    same: &Vec<Vec<bool>>,
) -> (descriptors: Vec<SpaceDescriptor>)
    requires
        same@.len() == 1 + registry@.len() + saved@.len(),
        forall|i: int| 0 <= i < same@.len() ==> #[trigger] same@[i]@.len() == same@.len(),
    ensures
        descriptor_views(descriptors@) == spec_seats(
            matrix(same@),
            saved@.map_values(|s: PersistedSpace| saved_listable(s)),
            registry@.len() as int,
        ).map_values(|seat: Seat| descriptor_of(seat, home@, registry@, saved@)),
{
    let mut saved_ok: Vec<bool> = Vec::new();
    let mut j: usize = 0;
    while j < saved.len()
        invariant
            j <= saved@.len(),
            saved_ok@ == saved@.subrange(0, j as int).map_values(|s: PersistedSpace| saved_listable(s)),
        decreases saved@.len() - j,
    {
        let ok = saved[j].kind == SpaceKind::Folder && saved[j].path.is_some();
        saved_ok.push(ok);
        assert(saved@.subrange(0, j + 1).map_values(|s: PersistedSpace| saved_listable(s)) =~= saved@.subrange(
            0,
            j as int,
        ).map_values(|s: PersistedSpace| saved_listable(s)).push(saved_listable(saved@[j as int])));
        j = j + 1;
    }
    assert(saved@.subrange(0, saved@.len() as int) =~= saved@);
    let seats = seat_spaces(same, registry.len(), &saved_ok);
    let ghost expected = seats@.map_values(|seat: Seat| descriptor_of(seat, home@, registry@, saved@));
    proof {
        lemma_seats_in_range(matrix(same@), saved_ok@, registry@.len() as int, saved_ok@.len() as int);
    }
    let mut descriptors: Vec<SpaceDescriptor> = Vec::new();
    let mut k: usize = 0;
    while k < seats.len()
        invariant
            k <= seats@.len(),
            saved_ok@ == saved@.map_values(|s: PersistedSpace| saved_listable(s)),
            seats@ == spec_seats(matrix(same@), saved_ok@, registry@.len() as int),
            expected == seats@.map_values(|seat: Seat| descriptor_of(seat, home@, registry@, saved@)),
            forall|q: int| 0 <= q < seats@.len() ==> #[trigger] seat_in_range(seats@[q], registry@.len() as int, saved_ok@),
            descriptor_views(descriptors@) == expected.subrange(0, k as int),
        decreases seats@.len() - k,
    {
        assert(seat_in_range(seats@[k as int], registry@.len() as int, saved_ok@));
        let descriptor = match seats[k] {
            Seat::FreeSessions => SpaceDescriptor { name: "Free sessions".to_owned(), path: home.clone(), kind: SpaceKind::AdHoc },
            Seat::Registered(i) => SpaceDescriptor {
                name: registry[i].name.clone(),
                path: registry[i].path.clone(),
                kind: SpaceKind::Folder,
            },
            Seat::Saved(j) => {
                assert(saved_ok@[j as int] == saved_listable(saved@[j as int]));
                let path = match &saved[j].path {
                    Some(p) => p.clone(),
                    None => String::new(),
                };
                SpaceDescriptor { name: saved[j].name.clone(), path, kind: SpaceKind::Folder }
            },
        };
        let ghost before = descriptor_views(descriptors@);
        descriptors.push(descriptor);
        assert(descriptor_views(descriptors@) =~= before.push(expected[k as int]));
        assert(expected.subrange(0, k + 1) =~= expected.subrange(0, k as int).push(expected[k as int]));
        k = k + 1;
    }
    assert(expected.subrange(0, seats@.len() as int) =~= expected);
    descriptors
}

/// A seat names an existing registry entry or a listable saved space.
pub open spec fn seat_in_range(seat: Seat, registry_count: int, saved_ok: Seq<bool>) -> bool {
    match seat {
        Seat::FreeSessions => true,
        Seat::Registered(i) => i < registry_count,
        Seat::Saved(j) => j < saved_ok.len() && saved_ok[j as int],
    }
}

proof fn lemma_seats_in_range(same: Seq<Seq<bool>>, saved_ok: Seq<bool>, registry_count: int, n: int)
    requires
        0 <= n <= saved_ok.len() <= usize::MAX,
        0 <= registry_count <= usize::MAX,
    ensures
        forall|q: int| 0 <= q < saved_seats(same, saved_ok, registry_count, n).len() ==> #[trigger] seat_in_range(
            saved_seats(same, saved_ok, registry_count, n)[q],
            registry_count,
            saved_ok,
        ),
    decreases n,
{
    if n == 0 {
        lemma_registry_seats_in_range(same, registry_count, saved_ok);
    } else {
        lemma_seats_in_range(same, saved_ok, registry_count, n - 1);
        let before = saved_seats(same, saved_ok, registry_count, n - 1);
        assert forall|q: int| 0 <= q < saved_seats(same, saved_ok, registry_count, n).len() implies #[trigger] seat_in_range(
            saved_seats(same, saved_ok, registry_count, n)[q],
            registry_count,
            saved_ok,
        ) by {
            if q < before.len() {
                assert(seat_in_range(before[q], registry_count, saved_ok));
            } else {
                assert(saved_seats(same, saved_ok, registry_count, n)[q] == Seat::Saved((n - 1) as usize));
                assert(saved_ok[n - 1]);
            }
        }
    }
}

proof fn lemma_registry_seats_in_range(same: Seq<Seq<bool>>, n: int, saved_ok: Seq<bool>)
    requires
        0 <= n,
    ensures
        forall|q: int| 0 <= q < registry_seats(same, n).len() ==> #[trigger] seat_in_range(
            registry_seats(same, n)[q],
            n,
            saved_ok,
        ),
    decreases n,
{
    if n > 0 {
        lemma_registry_seats_in_range(same, n - 1, saved_ok);
        assert forall|q: int| 0 <= q < registry_seats(same, n).len() implies #[trigger] seat_in_range(
            registry_seats(same, n)[q],
            n,
            saved_ok,
        ) by {
            if q < registry_seats(same, n - 1).len() {
                assert(seat_in_range(registry_seats(same, n - 1)[q], n - 1, saved_ok));
            }
        }
    }
}

/// The free-sessions space is always listed first, so the list is never empty.
pub proof fn lemma_free_sessions_first(same: Seq<Seq<bool>>, saved_ok: Seq<bool>, registry_count: int)
    requires
        0 <= registry_count,
    ensures
        spec_seats(same, saved_ok, registry_count).len() > 0,
        spec_seats(same, saved_ok, registry_count)[0] == Seat::FreeSessions,
{
    lemma_first_seat_stays(same, saved_ok, registry_count, saved_ok.len() as int);
}

proof fn lemma_first_seat_stays(same: Seq<Seq<bool>>, saved_ok: Seq<bool>, registry_count: int, n: int)
    requires
        0 <= registry_count,
    ensures
        saved_seats(same, saved_ok, registry_count, n).len() > 0,
        saved_seats(same, saved_ok, registry_count, n)[0] == Seat::FreeSessions,
    decreases n,
{
    if n <= 0 {
        lemma_registry_first(same, registry_count);
    } else {
        lemma_first_seat_stays(same, saved_ok, registry_count, n - 1);
    }
}

proof fn lemma_registry_first(same: Seq<Seq<bool>>, n: int)
    ensures
        registry_seats(same, n).len() > 0,
        registry_seats(same, n)[0] == Seat::FreeSessions,
    decreases n,
{
    if n > 0 {
        lemma_registry_first(same, n - 1);
    }
}

/// The first active space: the folder space the launch opened, else the
/// space that was active when the state was saved, else the first one.
/// `opened[i]` says whether space `i` is a folder space at the opened path;
/// `keys[i]` is its key.
pub open spec fn spec_initial_active(opened: Seq<bool>, keys: Seq<Seq<char>>, saved_active: Option<Seq<char>>) -> Option<int> {
    if exists|i: int| 0 <= i < opened.len() && opened[i] {
        Some(choose|i: int| 0 <= i < opened.len() && opened[i] && forall|j: int| 0 <= j < i ==> !opened[j])
    } else {
        match saved_active {
            Some(key) if keys.contains(key) => Some(choose|i: int| 0 <= i < keys.len() && keys[i] == key && forall|j: int| 0 <= j < i ==> keys[j] != key),
            _ => if keys.len() > 0 {
                Some(0)
            } else {
                None
            },
        }
    }
}

pub open spec fn key_views(keys: Seq<String>) -> Seq<Seq<char>> {
    keys.map_values(|k: String| k@)
}

pub open spec fn opt_key(key: Option<&String>) -> Option<Seq<char>> {
    match key {
        Some(k) => Some(k@),
        None => None,
    }
}

pub fn initial_active(opened: &Vec<bool>, keys: &Vec<String>, saved_active: Option<&String>) -> (active: Option<usize>)
    requires
        opened@.len() == keys@.len(),
    ensures
        match active {
            Some(i) => spec_initial_active(opened@, key_views(keys@), opt_key(saved_active)) == Some(i as int),
            None => spec_initial_active(opened@, key_views(keys@), opt_key(saved_active)) is None,
        },
{
    let ghost views = key_views(keys@);
    let mut i: usize = 0;
    while i < opened.len()
        invariant
            i <= opened@.len(),
            forall|j: int| 0 <= j < i ==> !opened@[j],
        decreases opened@.len() - i,
    {
        if opened[i] {
            proof {
                let c = choose|c: int| 0 <= c < opened@.len() && opened@[c] && forall|j: int| 0 <= j < c ==> !opened@[j];
                assert(0 <= i < opened@.len() && opened@[i as int] && forall|j: int| 0 <= j < i ==> !opened@[j]);
                if c < i {
                    assert(!opened@[c]);
                }
                if i < c {
                    assert(!opened@[i as int]);
                }
            }
            return Some(i);
        }
        i = i + 1;
    }
    if let Some(key) = saved_active {
        let mut k: usize = 0;
        while k < keys.len()
            invariant
                views == key_views(keys@),
                opt_key(saved_active) == Some(key@),
                opened@.len() == keys@.len(),
                forall|j: int| 0 <= j < opened@.len() ==> !opened@[j],
                k <= keys@.len(),
                forall|j: int| 0 <= j < k ==> views[j] != key@,
            decreases keys@.len() - k,
        {
            assert(views[k as int] == keys@[k as int]@);
            if keys[k] == *key {
                proof {
                    assert(!(exists|j: int| 0 <= j < opened@.len() && opened@[j]));
                    assert(views[k as int] == key@);
                    assert(views.contains(key@));
                    let c = choose|c: int| 0 <= c < views.len() && views[c] == key@ && forall|j: int| 0 <= j < c ==> views[j] != key@;
                    assert(0 <= k < views.len() && views[k as int] == key@ && forall|j: int| 0 <= j < k ==> views[j] != key@);
                    if c < k {
                        assert(views[c] != key@);
                    }
                    if k < c {
                        assert(views[k as int] != key@);
                    }
                    assert(c == k);
                }
                assert(opt_key(saved_active) == Some(key@));
                return Some(k);
            }
            k = k + 1;
        }
        proof {
            if views.contains(key@) {
                let j = choose|j: int| 0 <= j < views.len() && views[j] == key@;
                assert(views[j] != key@);
            }
        }
    }
    if keys.len() > 0 {
        Some(0)
    } else {
        None
    }
}

/// Plugin items are restored once, and not while the backend is still
/// starting or recovering.
pub open spec fn spec_restore_ready(already_restored: bool, backend: BackendView) -> bool {
    !already_restored && !(backend is Starting) && !(backend is Recovering)
}

pub fn restore_ready(already_restored: bool, backend: &Backend) -> (ready: bool)
    ensures
        ready == spec_restore_ready(already_restored, backend@),
{
    if already_restored {
        return false;
    }
    match backend {
        Backend::Starting => false,
        Backend::Recovering(_) => false,
        _ => true,
    }
}

/// How a restored plugin pane is built.
#[derive(Debug, Clone, Copy, PartialEq, Eq, Structural)]
pub enum PaneSource {
    /// A plugin compiled into Chartr.
    Native,
    /// One of Chartr's built-in surfaces, such as the browser.
    Hosted,
    /// Web content with its declared host access.
    Web,
}

/// What start-up knows about one saved plugin item.
#[derive(Debug, Clone, Copy, PartialEq, Eq, Structural)]
pub struct RestoreFacts {
    /// The catalog lists the plugin and the saved pane.
    pub listed: bool,
    /// The pane supports restoration.
    pub restorable: bool,
    /// The item was bound to a backend session.
    pub bound: bool,
    /// That session is still attached in its space.
    pub session_alive: bool,
    /// The saved layout still has the item.
    pub in_layout: bool,
    /// The plugin is enabled.
    pub enabled: bool,
    /// How the plugin provides the pane, if it still does.
    pub source: Option<PaneSource>,
}

/// Why a saved plugin item was not restored.
#[derive(Debug, Clone, Copy, PartialEq, Eq, Structural)]
pub enum RestoreFailure {
    Unavailable,
    NotRestorable,
    LostSession,
    NoLayoutItem,
    Disabled,
    NoLongerContributed,
}

/// The checks in order; the first that fails names the reason.
pub open spec fn spec_restore_plan(facts: RestoreFacts) -> Result<PaneSource, RestoreFailure> {
    if !facts.listed {
        Err(RestoreFailure::Unavailable)
    } else if !facts.restorable {
        Err(RestoreFailure::NotRestorable)
    } else if facts.bound && !facts.session_alive {
        Err(RestoreFailure::LostSession)
    } else if !facts.in_layout {
        Err(RestoreFailure::NoLayoutItem)
    } else if !facts.enabled {
        Err(RestoreFailure::Disabled)
    } else {
        match facts.source {
            Some(source) => Ok(source),
            None => Err(RestoreFailure::NoLongerContributed),
        }
    }
}

pub fn restore_plan(facts: RestoreFacts) -> (plan: Result<PaneSource, RestoreFailure>)
    ensures
        plan == spec_restore_plan(facts),
{
    if !facts.listed {
        Err(RestoreFailure::Unavailable)
    } else if !facts.restorable {
        Err(RestoreFailure::NotRestorable)
    } else if facts.bound && !facts.session_alive {
        Err(RestoreFailure::LostSession)
    } else if !facts.in_layout {
        Err(RestoreFailure::NoLayoutItem)
    } else if !facts.enabled {
        Err(RestoreFailure::Disabled)
    } else {
        match facts.source {
            Some(source) => Ok(source),
            None => Err(RestoreFailure::NoLongerContributed),
        }
    }
}

pub open spec fn spec_reason(failure: RestoreFailure) -> Seq<char> {
    match failure {
        RestoreFailure::Unavailable => "is unavailable"@,
        RestoreFailure::NotRestorable => "does not support restoration"@,
        RestoreFailure::LostSession => "lost its bound session"@,
        RestoreFailure::NoLayoutItem => "had no saved layout item"@,
        RestoreFailure::Disabled => "is disabled"@,
        RestoreFailure::NoLongerContributed => "is no longer contributed"@,
    }
}

/// `plugin:pane reason`.
pub open spec fn spec_failure_text(plugin: Seq<char>, pane: Seq<char>, failure: RestoreFailure) -> Seq<char> {
    plugin + seq![':'] + pane + seq![' '] + spec_reason(failure)
}

pub fn failure_text(plugin: &str, pane: &str, failure: RestoreFailure) -> (text: String)
    ensures
        text@ == spec_failure_text(plugin@, pane@, failure),
{
    let mut out: Vec<char> = Vec::new();
    append_text(&mut out, plugin);
    out.push(':');
    append_text(&mut out, pane);
    out.push(' ');
    match failure {
        RestoreFailure::Unavailable => append_text(&mut out, "is unavailable"),
        RestoreFailure::NotRestorable => append_text(&mut out, "does not support restoration"),
        RestoreFailure::LostSession => append_text(&mut out, "lost its bound session"),
        RestoreFailure::NoLayoutItem => append_text(&mut out, "had no saved layout item"),
        RestoreFailure::Disabled => append_text(&mut out, "is disabled"),
        RestoreFailure::NoLongerContributed => append_text(&mut out, "is no longer contributed"),
    }
    assert(out@ =~= spec_failure_text(plugin@, pane@, failure));
    string_from(out.as_slice())
}

/// Items joined by `, `.
pub open spec fn comma_joined(items: Seq<Seq<char>>) -> Seq<char>
    decreases items.len(),
{
    if items.len() == 0 {
        Seq::empty()
    } else if items.len() == 1 {
        items[0]
    } else {
        comma_joined(items.drop_last()) + ", "@ + items.last()
    }
}

/// The problem reported after restoration, if anything failed.
pub open spec fn spec_restore_problem(failures: Seq<Seq<char>>) -> Option<Seq<char>> {
    if failures.len() == 0 {
        None
    } else {
        Some("Some plugin items could not be restored: "@ + comma_joined(failures) + "."@)
    }
}

pub fn restore_problem(failures: &Vec<String>) -> (problem: Option<String>)
    ensures
        match problem {
            Some(p) => spec_restore_problem(key_views(failures@)) == Some(p@),
            None => spec_restore_problem(key_views(failures@)) is None,
        },
{
    let ghost views = key_views(failures@);
    if failures.len() == 0 {
        return None;
    }
    let mut joined: Vec<char> = Vec::new();
    let mut i: usize = 0;
    while i < failures.len()
        invariant
            views == key_views(failures@),
            i <= failures@.len(),
            joined@ == comma_joined(views.subrange(0, i as int)),
        decreases failures@.len() - i,
    {
        let ghost before = joined@;
        assert(views.subrange(0, i + 1).drop_last() =~= views.subrange(0, i as int));
        assert(views[i as int] == failures@[i as int]@);
        if i > 0 {
            append_text(&mut joined, ", ");
        }
        append_chars(&mut joined, &chars_of(failures[i].as_str()));
        proof {
            if i == 0 {
                assert(joined@ =~= views[0]);
            } else {
                assert(joined@ =~= before + ", "@ + views[i as int]);
            }
        }
        i = i + 1;
    }
    assert(views.subrange(0, views.len() as int) =~= views);
    let mut out: Vec<char> = Vec::new();
    append_text(&mut out, "Some plugin items could not be restored: ");
    append_chars(&mut out, &joined);
    append_text(&mut out, ".");
    Some(string_from(out.as_slice()))
}

/// A saved item whose pane is listed, restorable, still laid out, enabled
/// and still provided, and whose bound session (if any) is alive, is
/// restored, and only such an item is.
pub proof fn lemma_restored_exactly_when_everything_holds(facts: RestoreFacts)
    ensures
        spec_restore_plan(facts) is Ok <==> (facts.listed && facts.restorable && (!facts.bound
            || facts.session_alive) && facts.in_layout && facts.enabled && facts.source is Some),
{
}

} // verus!
