//! What the state database stores, and how a save touches it.
//!
//! The database holds one JSON row for the window and one per space, keyed by
//! the space's key and carrying its sidebar position. A save changes only the
//! rows whose content or position differs, deletes the rows of spaces that
//! are gone, and never lets an older queued request overwrite a newer one.
//! Encoding rows and running the SQL is the application's job.

use vstd::prelude::*;
use crate::text::{join_path, path_join, starts_with, chars_of};

verus! {

/// The configuration directory: `$XDG_CONFIG_HOME/chartr` when that is an
/// absolute path, else `$HOME/.config/chartr` when a home is known, else none.
pub open spec fn spec_config_root(xdg: Option<Seq<char>>, home: Option<Seq<char>>) -> Option<Seq<char>> {
    match xdg {
        Some(x) if x.len() > 0 && x[0] == '/' => Some(path_join(x, "chartr"@)),
        _ => match home {
            Some(h) if h.len() > 0 => Some(path_join(h, ".config/chartr"@)),
            _ => None,
        },
    }
}

/// Resolves the configuration directory from `$XDG_CONFIG_HOME` and the home
/// directory.
pub fn config_root_from(xdg: Option<&str>, home: Option<&str>) -> (root: Option<String>)
    ensures
        match root {
            Some(r) => spec_config_root(
                match xdg { Some(x) => Some(x@), None => None },
                match home { Some(h) => Some(h@), None => None },
            ) == Some(r@),
            None => spec_config_root(
                match xdg { Some(x) => Some(x@), None => None },
                match home { Some(h) => Some(h@), None => None },
            ) is None,
        },
{
    if let Some(x) = xdg {
        let chars = chars_of(x);
        if chars.len() > 0 && chars[0] == '/' {
            return Some(join_path(x, "chartr"));
        }
    }
    if let Some(h) = home {
        let chars = chars_of(h);
        if chars.len() > 0 {
            return Some(join_path(h, ".config/chartr"));
        }
    }
    None
}

/// The database file inside the state directory.
pub const STATE_FILE: &'static str = "state.sqlite";

/// The schema version this build writes.
pub const SCHEMA_VERSION: i64 = 1;

#[derive(Debug, Clone, Copy, PartialEq, Eq, Structural)]
pub enum SpaceKind {
    AdHoc,
    Folder,
}

/// A restorable item of a space.
#[derive(Debug, Clone, PartialEq, Eq)]
pub enum PersistedItem {
    Terminal { item_id: u64, backend_id: String },
    Plugin {
        item_id: u64,
        plugin: String,
        pane: String,
        state: Option<String>,
        bound_session: Option<String>,
    },
}

impl PersistedItem {
    /// The item's stable identifier in its space's layout.
    pub open spec fn spec_item_id(&self) -> u64 {
        match self {
            PersistedItem::Terminal { item_id, .. } => *item_id,
            PersistedItem::Plugin { item_id, .. } => *item_id,
        }
    }

    pub fn item_id(&self) -> (id: u64)
        ensures
            id == self.spec_item_id(),
    {
        match self {
            PersistedItem::Terminal { item_id, .. } => *item_id,
            PersistedItem::Plugin { item_id, .. } => *item_id,
        }
    }
}

/// One space as saved. `layout` is the space's pane layout in its JSON
/// encoding, carried through unchanged.
#[derive(Debug, Clone, PartialEq, Eq)]
pub struct PersistedSpace {
    pub key: String,
    pub name: String,
    pub path: Option<String>,
    pub kind: SpaceKind,
    pub layout: String,
    pub items: Vec<PersistedItem>,
    pub expanded: bool,
}

/// A row of the `spaces` table.
#[derive(Debug, Clone, PartialEq, Eq)]
pub struct StoredRow {
    pub key: String,
    pub ordinal: i64,
    pub value: String,
}

pub type RowView = (Seq<char>, i64, Seq<char>);

impl View for StoredRow {
    type V = RowView;

    open spec fn view(&self) -> RowView {
        (self.key@, self.ordinal, self.value@)
    }
}

/// One change to the `spaces` table.
#[derive(Debug, Clone, PartialEq, Eq)]
pub enum RowChange {
    Delete(String),
    Upsert(StoredRow),
}

pub enum ChangeView {
    Delete(Seq<char>),
    Upsert(RowView),
}

impl View for RowChange {
    type V = ChangeView;

    open spec fn view(&self) -> ChangeView {
        match self {
            RowChange::Delete(key) => ChangeView::Delete(key@),
            RowChange::Upsert(row) => ChangeView::Upsert(row@),
        }
    }
}

/// A space to save: its key and its encoded row value.
pub struct EncodedSpace {
    pub key: String,
    pub value: String,
}

pub open spec fn change_views(plan: Seq<RowChange>) -> Seq<ChangeView> {
    plan.map_values(|c: RowChange| c@)
}

pub open spec fn encoded_views(spaces: Seq<EncodedSpace>) -> Seq<(Seq<char>, Seq<char>)> {
    spaces.map_values(|s: EncodedSpace| (s.key@, s.value@))
}

pub open spec fn row_views(rows: Seq<StoredRow>) -> Seq<RowView> {
    rows.map_values(|r: StoredRow| r@)
}

/// The stored row for `key`, if any (the last one, were there several).
pub open spec fn stored_row(rows: Seq<RowView>, key: Seq<char>) -> Option<(i64, Seq<char>)>
    decreases rows.len(),
{
    if rows.len() == 0 {
        None
    } else if rows.last().0 == key {
        Some((rows.last().1, rows.last().2))
    } else {
        stored_row(rows.drop_last(), key)
    }
}

/// Whether the snapshot saves a space with this key.
pub open spec fn saves_key(spaces: Seq<(Seq<char>, Seq<char>)>, key: Seq<char>) -> bool {
    exists|i: int| 0 <= i < spaces.len() && #[trigger] spaces[i].0 == key
}

/// The changes a save makes: each stored space that is no longer saved is
/// deleted, and each saved space whose row is missing or differs in position
/// or content is written, at its position in the snapshot.
pub open spec fn plan_has(
    rows: Seq<RowView>,
    spaces: Seq<(Seq<char>, Seq<char>)>,
    change: ChangeView,
) -> bool {
    match change {
        ChangeView::Delete(key) => stored_row(rows, key) is Some && !saves_key(spaces, key),
        ChangeView::Upsert(row) => exists|i: int|
            0 <= i < spaces.len() && #[trigger] spaces[i].0 == row.0 && spaces[i].1 == row.2 && row.1
                == i && stored_row(rows, row.0) != Some((row.1, row.2)),
    }
}

/// The deletions a save plans, in stored-row order.
pub open spec fn planned_deletions(rows: Seq<RowView>, spaces: Seq<(Seq<char>, Seq<char>)>) -> Seq<ChangeView>
    decreases rows.len(),
{
    if rows.len() == 0 {
        Seq::empty()
    } else {
        let before = planned_deletions(rows.drop_last(), spaces);
        if saves_key(spaces, rows.last().0) {
            before
        } else {
            before.push(ChangeView::Delete(rows.last().0))
        }
    }
}

/// The writes a save plans for the first `n` saved spaces, in snapshot order.
pub open spec fn planned_writes(rows: Seq<RowView>, spaces: Seq<(Seq<char>, Seq<char>)>, n: int) -> Seq<ChangeView>
    decreases n,
{
    if n <= 0 {
        Seq::empty()
    } else {
        let before = planned_writes(rows, spaces, n - 1);
        let (key, value) = spaces[n - 1];
        if stored_row(rows, key) == Some(((n - 1) as i64, value)) {
            before
        } else {
            before.push(ChangeView::Upsert((key, (n - 1) as i64, value)))
        }
    }
}

/// Whether `key` is among the stored rows.
fn find_row(rows: &Vec<StoredRow>, key: &String) -> (found: Option<usize>)
    ensures
        match found {
            Some(i) => i < rows@.len() && stored_row(row_views(rows@), key@) == Some(
                (rows@[i as int].ordinal, rows@[i as int].value@),
            ),
            None => stored_row(row_views(rows@), key@) is None,
        },
{
    let mut i: usize = rows.len();
    assert(row_views(rows@).subrange(0, i as int) =~= row_views(rows@));
    while i > 0
        invariant
            i <= rows@.len(),
            stored_row(row_views(rows@), key@) == stored_row(row_views(rows@).subrange(0, i as int), key@),
        decreases i,
    {
        let ghost prefix = row_views(rows@).subrange(0, i as int);
        proof {
            assert(prefix.drop_last() =~= row_views(rows@).subrange(0, i - 1));
            assert(prefix.last() == rows@[i - 1]@);
        }
        if rows[i - 1].key == *key {
            return Some(i - 1);
        }
        i = i - 1;
    }
    None
}

/// Whether the snapshot saves a space with `key`.
fn snapshot_saves(spaces: &Vec<EncodedSpace>, key: &String) -> (saved: bool)
    ensures
        saved == saves_key(encoded_views(spaces@), key@),
{
    let mut i: usize = 0;
    while i < spaces.len()
        invariant
            i <= spaces@.len(),
            forall|j: int| 0 <= j < i ==> encoded_views(spaces@)[j].0 != key@,
        decreases spaces@.len() - i,
    {
        if spaces[i].key == *key {
            assert(encoded_views(spaces@)[i as int].0 == key@);
            return true;
        }
        i = i + 1;
    }
    false
}

/// Plans the changes a save of `spaces` makes to the stored `rows`.
pub fn plan_space_rows(rows: &Vec<StoredRow>, spaces: &Vec<EncodedSpace>) -> (plan: Vec<RowChange>)
    requires
        spaces@.len() <= i64::MAX,
    ensures
        forall|change: ChangeView| #[trigger] change_views(plan@).contains(change) == plan_has(
            row_views(rows@),
            encoded_views(spaces@),
            change,
        ),
        change_views(plan@) == planned_deletions(row_views(rows@), encoded_views(spaces@)) + planned_writes(
            row_views(rows@),
            encoded_views(spaces@),
            spaces@.len() as int,
        ),
{
    let ghost stored = row_views(rows@);
    let ghost saved = encoded_views(spaces@);
    let mut plan: Vec<RowChange> = Vec::new();
    let mut i: usize = 0;
    // Deletions: stored spaces that are no longer saved.
    while i < rows.len()
        invariant
            i <= rows@.len(),
            stored == row_views(rows@),
            saved == encoded_views(spaces@),
            forall|change: ChangeView| #[trigger] change_views(plan@).contains(change) == match change {
                ChangeView::Delete(key) => (exists|j: int| 0 <= j < i && #[trigger] stored[j].0 == key) && !saves_key(saved, key),
                ChangeView::Upsert(_) => false,
            },
            change_views(plan@) == planned_deletions(stored.subrange(0, i as int), saved),
        decreases rows@.len() - i,
    {
        let ghost before = change_views(plan@);
        proof {
            assert(stored.subrange(0, i + 1).drop_last() =~= stored.subrange(0, i as int));
            assert(stored.subrange(0, i + 1).last() == stored[i as int]);
            assert(stored[i as int].0 == rows@[i as int].key@);
        }
        if !snapshot_saves(spaces, &rows[i].key) {
            plan.push(RowChange::Delete(rows[i].key.clone()));
            proof {
                assert(change_views(plan@) =~= before.push(ChangeView::Delete(stored[i as int].0)));
            }
        }
        proof {
            assert forall|change: ChangeView| #[trigger] change_views(plan@).contains(change) == match change {
                ChangeView::Delete(key) => (exists|j: int| 0 <= j < i + 1 && #[trigger] stored[j].0 == key) && !saves_key(saved, key),
                ChangeView::Upsert(_) => false,
            } by {
                crate::notices::lemma_push_contains(before, ChangeView::Delete(stored[i as int].0), change);
                if let ChangeView::Delete(key) = change {
                    if exists|j: int| 0 <= j < i + 1 && #[trigger] stored[j].0 == key {
                        let j = choose|j: int| 0 <= j < i + 1 && #[trigger] stored[j].0 == key;
                        if j < i {
                            assert(exists|j: int| 0 <= j < i && #[trigger] stored[j].0 == key);
                        }
                    }
                }
            }
        }
        i = i + 1;
    }
    proof {
        assert forall|key: Seq<char>| (exists|j: int| 0 <= j < rows@.len() && #[trigger] stored[j].0 == key) == (stored_row(stored, key) is Some) by {
            lemma_stored_row_some(stored, key);
        }
    }
    assert(stored.subrange(0, stored.len() as int) =~= stored);
    let ghost deletions = change_views(plan@);
    // Writes: saved spaces whose row is missing or differs.
    let mut i: usize = 0;
    while i < spaces.len()
        invariant
            i <= spaces@.len(),
            spaces@.len() <= i64::MAX,
            stored == row_views(rows@),
            saved == encoded_views(spaces@),
            forall|change: ChangeView| #[trigger] change_views(plan@).contains(change) == match change {
                ChangeView::Delete(key) => stored_row(stored, key) is Some && !saves_key(saved, key),
                ChangeView::Upsert(row) => exists|j: int|
                    0 <= j < i && #[trigger] saved[j].0 == row.0 && saved[j].1 == row.2 && row.1 == j
                        && stored_row(stored, row.0) != Some((row.1, row.2)),
            },
            deletions == planned_deletions(stored, saved),
            change_views(plan@) == deletions + planned_writes(stored, saved, i as int),
        decreases spaces@.len() - i,
    {
        proof {
            assert(saved[i as int] == (spaces@[i as int].key@, spaces@[i as int].value@));
        }
        let ghost before = change_views(plan@);
        let ordinal = i as i64;
        let unchanged = match find_row(rows, &spaces[i].key) {
            Some(at) => rows[at].ordinal == ordinal && rows[at].value == spaces[i].value,
            None => false,
        };
        let ghost row = (saved[i as int].0, ordinal, saved[i as int].1);
        if !unchanged {
            plan.push(
                RowChange::Upsert(
                    StoredRow {
                        key: spaces[i].key.clone(),
                        ordinal,
                        value: spaces[i].value.clone(),
                    },
                ),
            );
            proof {
                assert(change_views(plan@) =~= before.push(ChangeView::Upsert(row)));
                assert(deletions + planned_writes(stored, saved, i + 1) =~= (deletions + planned_writes(stored, saved, i as int)).push(ChangeView::Upsert(row)));
            }
        }
        proof {
            assert forall|change: ChangeView| #[trigger] change_views(plan@).contains(change) == match change {
                ChangeView::Delete(key) => stored_row(stored, key) is Some && !saves_key(saved, key),
                ChangeView::Upsert(r) => exists|j: int|
                    0 <= j < i + 1 && #[trigger] saved[j].0 == r.0 && saved[j].1 == r.2 && r.1 == j
                        && stored_row(stored, r.0) != Some((r.1, r.2)),
            } by {
                crate::notices::lemma_push_contains(before, ChangeView::Upsert(row), change);
                if let ChangeView::Upsert(r) = change {
                    if exists|j: int| 0 <= j < i + 1 && #[trigger] saved[j].0 == r.0 && saved[j].1 == r.2 && r.1 == j
                        && stored_row(stored, r.0) != Some((r.1, r.2)) {
                        let j = choose|j: int| 0 <= j < i + 1 && #[trigger] saved[j].0 == r.0 && saved[j].1 == r.2 && r.1 == j
                            && stored_row(stored, r.0) != Some((r.1, r.2));
                        if j < i {
                            assert(exists|j: int| 0 <= j < i && #[trigger] saved[j].0 == r.0 && saved[j].1 == r.2 && r.1 == j
                                && stored_row(stored, r.0) != Some((r.1, r.2)));
                        } else {
                            assert(r == row);
                        }
                    }
                }
            }
        }
        i = i + 1;
    }
    plan
}

/// A key has a stored row exactly when some row carries it.
pub proof fn lemma_stored_row_some(rows: Seq<RowView>, key: Seq<char>)
    ensures
        stored_row(rows, key) is Some == exists|j: int| 0 <= j < rows.len() && #[trigger] rows[j].0 == key,
    decreases rows.len(),
{
    if rows.len() > 0 {
        let rest = rows.drop_last();
        lemma_stored_row_some(rest, key);
        if exists|j: int| 0 <= j < rest.len() && #[trigger] rest[j].0 == key {
            let j = choose|j: int| 0 <= j < rest.len() && #[trigger] rest[j].0 == key;
            assert(rows[j].0 == key);
        }
        if exists|j: int| 0 <= j < rows.len() && #[trigger] rows[j].0 == key {
            let j = choose|j: int| 0 <= j < rows.len() && #[trigger] rows[j].0 == key;
            if j < rows.len() - 1 {
                assert(rest[j].0 == key);
            }
        }
    }
}

/// No two saved spaces share a key.
pub open spec fn distinct_keys(spaces: Seq<(Seq<char>, Seq<char>)>) -> bool {
    forall|i: int, j: int| 0 <= i < j < spaces.len() ==> spaces[i].0 != spaces[j].0
}

/// The row the snapshot wants for `key`: its position and encoded value.
pub open spec fn desired_row(spaces: Seq<(Seq<char>, Seq<char>)>, key: Seq<char>) -> Option<(i64, Seq<char>)> {
    if saves_key(spaces, key) {
        let i = choose|i: int| 0 <= i < spaces.len() && #[trigger] spaces[i].0 == key;
        Some((i as i64, spaces[i].1))
    } else {
        None
    }
}

/// The row for `key` once the planned changes are applied to the table.
pub open spec fn applied_row(
    rows: Seq<RowView>,
    spaces: Seq<(Seq<char>, Seq<char>)>,
    key: Seq<char>,
) -> Option<(i64, Seq<char>)> {
    if exists|row: RowView| row.0 == key && #[trigger] plan_has(rows, spaces, ChangeView::Upsert(row)) {
        let row = choose|row: RowView| row.0 == key && #[trigger] plan_has(rows, spaces, ChangeView::Upsert(row));
        Some((row.1, row.2))
    } else if plan_has(rows, spaces, ChangeView::Delete(key)) {
        None
    } else {
        stored_row(rows, key)
    }
}

/// Applying a save's changes leaves exactly the snapshot in the table: every
/// saved space at its position with its content, and no row for a space that
/// is gone.
pub proof fn lemma_save_stores_exactly_the_snapshot(
    rows: Seq<RowView>,
    spaces: Seq<(Seq<char>, Seq<char>)>,
    key: Seq<char>,
)
    requires
        distinct_keys(spaces),
        spaces.len() <= i64::MAX,
    ensures
        applied_row(rows, spaces, key) == desired_row(spaces, key),
{
    if saves_key(spaces, key) {
        let i = choose|i: int| 0 <= i < spaces.len() && #[trigger] spaces[i].0 == key;
        let wanted: RowView = (key, i as i64, spaces[i].1);
        assert forall|row: RowView| row.0 == key && #[trigger] plan_has(rows, spaces, ChangeView::Upsert(row)) implies row == wanted by {
            let j = choose|j: int| 0 <= j < spaces.len() && #[trigger] spaces[j].0 == row.0 && spaces[j].1 == row.2 && row.1 == j
                && stored_row(rows, row.0) != Some((row.1, row.2));
            if j != i {
                if j < i {
                    assert(spaces[j].0 != spaces[i].0);
                } else {
                    assert(spaces[i].0 != spaces[j].0);
                }
            }
        }
        if stored_row(rows, key) != Some((i as i64, spaces[i].1)) {
            assert(plan_has(rows, spaces, ChangeView::Upsert(wanted)));
        }
    } else {
        assert forall|row: RowView| row.0 == key implies !#[trigger] plan_has(rows, spaces, ChangeView::Upsert(row)) by {
            if plan_has(rows, spaces, ChangeView::Upsert(row)) {
                let j = choose|j: int| 0 <= j < spaces.len() && #[trigger] spaces[j].0 == row.0 && spaces[j].1 == row.2 && row.1 == j
                    && stored_row(rows, row.0) != Some((row.1, row.2));
                assert(saves_key(spaces, key));
            }
        }
    }
}

/// A save of what is already stored changes nothing: when the table holds
/// exactly the snapshot's rows, the plan is empty.
pub proof fn lemma_unchanged_save_touches_nothing(
    rows: Seq<RowView>,
    spaces: Seq<(Seq<char>, Seq<char>)>,
    change: ChangeView,
)
    requires
        distinct_keys(spaces),
        spaces.len() <= i64::MAX,
        forall|key: Seq<char>| #[trigger] stored_row(rows, key) == desired_row(spaces, key),
    ensures
        !plan_has(rows, spaces, change),
{
    match change {
        ChangeView::Delete(key) => {
            assert(stored_row(rows, key) == desired_row(spaces, key));
        },
        ChangeView::Upsert(row) => {
            if plan_has(rows, spaces, change) {
                let j = choose|j: int| 0 <= j < spaces.len() && #[trigger] spaces[j].0 == row.0 && spaces[j].1 == row.2 && row.1 == j
                    && stored_row(rows, row.0) != Some((row.1, row.2));
                assert(stored_row(rows, row.0) == desired_row(spaces, row.0));
                let i = choose|i: int| 0 <= i < spaces.len() && #[trigger] spaces[i].0 == row.0;
                if i != j {
                    if i < j {
                        assert(spaces[i].0 != spaces[j].0);
                    } else {
                        assert(spaces[j].0 != spaces[i].0);
                    }
                }
            }
        },
    }
}

/// Whether the window row must be written: it is missing or differs.
pub fn window_needs_write(stored: Option<&String>, encoded: &String) -> (write: bool)
    ensures
        write == match stored {
            Some(value) => value@ != encoded@,
            None => true,
        },
{
    match stored {
        Some(value) => *value != *encoded,
        None => true,
    }
}

/// Window state saved before the space picker setting existed keeps the
/// picker visible.
pub fn default_show_space_picker() -> (show: bool)
    ensures
        show,
{
    true
}

/// The background writer's issuing side: it numbers save requests as they
/// are made.
pub struct StateWriter {
    revision: u64,
}

/// What the writer last committed: the newest revision carried out and the
/// encoded snapshot on disk.
pub struct WriterState {
    revision: u64,
    saved: String,
}

/// One numbered request to save an encoded snapshot.
pub struct SaveRequest {
    pub snapshot: String,
    pub revision: u64,
}

/// What a save request does when its turn comes.
#[derive(Debug, Clone, Copy, PartialEq, Eq, Structural)]
pub enum SaveStep {
    /// A newer request already ran: this one is dropped.
    Stale,
    /// The snapshot equals what is on disk: nothing to write.
    Unchanged,
    /// Write the snapshot, then report the commit.
    Write,
}

impl StateWriter {
    pub closed spec fn issued(&self) -> u64 {
        self.revision
    }

    /// A writer whose store holds `saved`; nothing is requested yet.
    pub fn new(saved: String) -> (pair: (StateWriter, WriterState))
        ensures
            pair.0.issued() == 0,
            pair.1.applied() == 0,
            pair.1.saved() == saved@,
    {
        (StateWriter { revision: 0 }, WriterState { revision: 0, saved })
    }

    /// The number of the last request made.
    pub fn revision(&self) -> (revision: u64)
        ensures
            revision == self.issued(),
    {
        self.revision
    }

    /// Numbers a request to save `snapshot`.
    pub fn request(&mut self, snapshot: String) -> (request: SaveRequest)
        requires
            old(self).issued() < u64::MAX,
        ensures
            request.revision == old(self).issued() + 1,
            request.snapshot@ == snapshot@,
            final(self).issued() == request.revision,
    {
        self.revision = self.revision + 1;
        SaveRequest { snapshot, revision: self.revision }
    }
}

impl WriterState {
    pub closed spec fn applied(&self) -> u64 {
        self.revision
    }

    pub closed spec fn saved(&self) -> Seq<char> {
        self.saved@
    }
}

impl SaveRequest {
    /// Takes this request's turn: an older request that runs late is
    /// dropped; otherwise it becomes the newest carried out, and is written
    /// only when it differs from what is on disk.
    pub fn save(&self, state: &mut WriterState) -> (step: SaveStep)
        ensures
            step == spec_save_step(old(state).applied(), old(state).saved(), self.revision, self.snapshot@),
            final(state).applied() == applied_after(old(state).applied(), self.revision),
            final(state).saved() == old(state).saved(),
    {
        if self.revision <= state.revision {
            return SaveStep::Stale;
        }
        state.revision = self.revision;
        if self.snapshot == state.saved {
            SaveStep::Unchanged
        } else {
            SaveStep::Write
        }
    }

    /// The write committed: the snapshot is now what is on disk. (A failed
    /// write is not reported, so the same snapshot can be retried.)
    pub fn committed(self, state: &mut WriterState)
        ensures
            final(state).applied() == old(state).applied(),
            final(state).saved() == self.snapshot@,
    {
        state.saved = self.snapshot;
    }
}

/// The step a request numbered `revision` takes after `applied`, with
/// `saved` on disk.
pub open spec fn spec_save_step(applied: u64, saved: Seq<char>, revision: u64, snapshot: Seq<char>) -> SaveStep {
    if !accepts(applied, revision) {
        SaveStep::Stale
    } else if snapshot == saved {
        SaveStep::Unchanged
    } else {
        SaveStep::Write
    }
}

/// Whether a request numbered `revision` is carried out after `applied`.
pub open spec fn accepts(applied: u64, revision: u64) -> bool {
    revision > applied
}

/// The newest revision carried out once `revision` has been considered.
pub open spec fn applied_after(applied: u64, revision: u64) -> u64 {
    if accepts(applied, revision) {
        revision
    } else {
        applied
    }
}

/// A delayed request can never overwrite a newer one: once a request has
/// been carried out, no request numbered at or below it is carried out
/// afterwards, and the applied revision never goes back.
pub proof fn lemma_late_requests_cannot_overwrite(applied: u64, newer: u64, older: u64)
    requires
        older <= newer,
    ensures
        applied_after(applied, newer) >= applied,
        accepts(applied, newer) ==> !accepts(applied_after(applied, newer), older),
        accepts(applied, newer) ==> forall|saved: Seq<char>, snapshot: Seq<char>|
            spec_save_step(applied_after(applied, newer), saved, older, snapshot) == SaveStep::Stale,
{
}

/// Saving what is already on disk writes nothing: a repeated request for
/// the committed snapshot is unchanged (or stale), never a write.
pub proof fn lemma_repeat_save_writes_nothing(applied: u64, saved: Seq<char>, revision: u64)
    ensures
        spec_save_step(applied, saved, revision, saved) != SaveStep::Write,
{
}

/// A failed write can be retried: a request that must write, but whose write
/// fails (so `committed` is never called), leaves what is on disk as it was
/// ([`SaveRequest::save`] keeps `saved()`), and any later, higher-numbered
/// request for a snapshot that differs from it is again a write.
pub proof fn lemma_failed_write_can_be_retried(
    applied: u64,
    saved: Seq<char>,
    failed: u64,
    failed_snapshot: Seq<char>,
    retry: u64,
    snapshot: Seq<char>,
)
    requires
        spec_save_step(applied, saved, failed, failed_snapshot) == SaveStep::Write,
        failed < retry,
        snapshot != saved,
    ensures
        applied_after(applied, failed) == failed,
        spec_save_step(applied_after(applied, failed), saved, retry, snapshot) == SaveStep::Write,
        applied_after(applied_after(applied, failed), retry) == retry,
{
}

/// A saved folder space that sits at the filesystem root.
pub open spec fn is_root_folder(space: PersistedSpace, at_root: bool) -> bool {
    space.kind == SpaceKind::Folder && at_root
}

/// The one-time cleanup of the root space that older builds opened for a
/// desktop launch. It only proceeds when no saved root folder owns an item;
/// it then keeps every space but the root folders, in order (the indices of
/// the kept spaces). `at_root[i]` says whether space `i`'s path is the root.
pub open spec fn spec_root_cleanup(spaces: Seq<PersistedSpace>, at_root: Seq<bool>) -> Option<Seq<usize>> {
    if exists|i: int| 0 <= i < spaces.len() && is_root_folder(spaces[i], at_root[i]) && spaces[i].items.len() > 0 {
        None
    } else {
        Some(Seq::new(spaces.len(), |i: int| i as usize).filter(|i: usize| !is_root_folder(spaces[i as int], at_root[i as int])))
    }
}

pub fn root_cleanup(spaces: &Vec<PersistedSpace>, at_root: &Vec<bool>) -> (kept: Option<Vec<usize>>)
    requires
        at_root@.len() == spaces@.len(),
    ensures
        match spec_root_cleanup(spaces@, at_root@) {
            Some(k) => kept matches Some(v) && v@ == k,
            None => kept is None,
        },
{
    let n = spaces.len();
    let mut i: usize = 0;
    while i < n
        invariant
            n == spaces@.len(),
            at_root@.len() == n,
            i <= n,
            forall|j: int| 0 <= j < i ==> !(is_root_folder(spaces@[j], at_root@[j]) && spaces@[j].items.len() > 0),
        decreases n - i,
    {
        if spaces[i].kind == SpaceKind::Folder && at_root[i] && spaces[i].items.len() > 0 {
            return None;
        }
        i = i + 1;
    }
    let ghost all = Seq::new(n as nat, |i: int| i as usize);
    let ghost keep = |i: usize| !is_root_folder(spaces@[i as int], at_root@[i as int]);
    let mut kept: Vec<usize> = Vec::new();
    let mut i: usize = 0;
    while i < n
        invariant
            n == spaces@.len(),
            at_root@.len() == n,
            all == Seq::new(n as nat, |i: int| i as usize),
            keep == (|i: usize| !is_root_folder(spaces@[i as int], at_root@[i as int])),
            i <= n,
            kept@ == all.subrange(0, i as int).filter(keep),
        decreases n - i,
    {
        proof {
            reveal(Seq::filter);
            assert(all.subrange(0, i + 1).drop_last() =~= all.subrange(0, i as int));
            assert(all.subrange(0, i + 1).last() == i);
        }
        if !(spaces[i].kind == SpaceKind::Folder && at_root[i]) {
            kept.push(i);
        }
        i = i + 1;
    }
    assert(all.subrange(0, n as int) =~= all);
    Some(kept)
}

/// The active space after the cleanup: when spaces were removed and the
/// active one was the root folder (`root_key`), the free-sessions space.
pub open spec fn spec_active_after_cleanup(active: Option<Seq<char>>, root_key: Seq<char>, removed: bool) -> Option<Seq<char>> {
    if removed && active == Some(root_key) {
        Some("ad-hoc"@)
    } else {
        active
    }
}

pub fn active_after_cleanup(active: Option<String>, root_key: &String, removed: bool) -> (next: Option<String>)
    ensures
        match next {
            Some(n) => spec_active_after_cleanup(
                match active { Some(a) => Some(a@), None => None },
                root_key@,
                removed,
            ) == Some(n@),
            None => spec_active_after_cleanup(
                match active { Some(a) => Some(a@), None => None },
                root_key@,
                removed,
            ) is None,
        },
{
    match active {
        Some(a) => if removed && a == *root_key {
            Some("ad-hoc".to_owned())
        } else {
            Some(a)
        },
        None => None,
    }
}

/// The state directory: `$XDG_STATE_HOME/chartr-zeddy` when that is an
/// absolute path, else `$HOME/.local/state/chartr-zeddy` when a home is
/// known, else none.
pub open spec fn spec_state_root(xdg: Option<Seq<char>>, home: Option<Seq<char>>) -> Option<Seq<char>> {
    match xdg {
        Some(x) if x.len() > 0 && x[0] == '/' => Some(path_join(x, "chartr-zeddy"@)),
        _ => match home {
            Some(h) if h.len() > 0 => Some(path_join(h, ".local/state/chartr-zeddy"@)),
            _ => None,
        },
    }
}

/// Resolves the state directory from `$XDG_STATE_HOME` and the home directory.
pub fn state_root_from(xdg: Option<&str>, home: Option<&str>) -> (root: Option<String>)
    ensures
        match root {
            Some(r) => spec_state_root(
                match xdg { Some(x) => Some(x@), None => None },
                match home { Some(h) => Some(h@), None => None },
            ) == Some(r@),
            None => spec_state_root(
                match xdg { Some(x) => Some(x@), None => None },
                match home { Some(h) => Some(h@), None => None },
            ) is None,
        },
{
    if let Some(x) = xdg {
        let chars = chars_of(x);
        if chars.len() > 0 && chars[0] == '/' {
            return Some(join_path(x, "chartr-zeddy"));
        }
    }
    if let Some(h) = home {
        let chars = chars_of(h);
        if chars.len() > 0 {
            return Some(join_path(h, ".local/state/chartr-zeddy"));
        }
    }
    None
}

/// The database file inside the state directory.
pub fn state_file(root: &str) -> (file: String)
    ensures
        file@ == path_join(root@, "state.sqlite"@),
{
    join_path(root, STATE_FILE)
}

} // verus!
