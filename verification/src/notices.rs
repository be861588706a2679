//! The problems menu: which errors are shown, since when, and in what order.
//!
//! A notice is identified by where it comes from, what it says, and how
//! severe it is. The first time a condition is seen is remembered for as long
//! as it persists; a dismissed notice stays hidden while its condition
//! persists and returns only after the condition has cleared and recurred.

use vstd::prelude::*;
use crate::backend::{Backend, BackendView};
use crate::text::{chars_of, decimal, decimal_string, push_char, string_from};

verus! {

#[derive(Debug, Clone, Copy, PartialEq, Eq, Structural)]
pub enum ErrorSeverity {
    Warning,
    Error,
}

/// What identifies a notice.
#[derive(Debug, Clone, PartialEq, Eq)]
pub struct ErrorNoticeKey {
    pub source: String,
    pub message: String,
    pub severity: ErrorSeverity,
}

pub type KeyView = (Seq<char>, Seq<char>, ErrorSeverity);

impl View for ErrorNoticeKey {
    type V = KeyView;

    open spec fn view(&self) -> KeyView {
        (self.source@, self.message@, self.severity)
    }
}

/// A notice as shown: its key and when its condition was first seen, in
/// milliseconds on the application's clock.
#[derive(Debug, Clone, PartialEq, Eq)]
pub struct ErrorNotice {
    pub key: ErrorNoticeKey,
    pub first_seen: u64,
}

pub type NoticeView = (KeyView, u64);

impl View for ErrorNotice {
    type V = NoticeView;

    open spec fn view(&self) -> NoticeView {
        (self.key@, self.first_seen)
    }
}

/// Remembered first sightings, one entry per key.
pub struct SeenAt {
    pub entries: Vec<(ErrorNoticeKey, u64)>,
}

/// The first sighting recorded for `key`, if any.
pub open spec fn lookup(entries: Seq<(KeyView, u64)>, key: KeyView) -> Option<u64>
    decreases entries.len(),
{
    if entries.len() == 0 {
        None
    } else if entries[0].0 == key {
        Some(entries[0].1)
    } else {
        lookup(entries.drop_first(), key)
    }
}

impl View for SeenAt {
    type V = Seq<(KeyView, u64)>;

    open spec fn view(&self) -> Seq<(KeyView, u64)> {
        self.entries@.map_values(|e: (ErrorNoticeKey, u64)| (e.0@, e.1))
    }
}

/// The keys of a list of notice keys.
pub open spec fn key_views(keys: Seq<ErrorNoticeKey>) -> Seq<KeyView> {
    keys.map_values(|k: ErrorNoticeKey| k@)
}

impl ErrorNoticeKey {
    /// A copy of this key.
    pub fn duplicate(&self) -> (copy: ErrorNoticeKey)
        ensures
            copy@ == self@,
    {
        ErrorNoticeKey {
            source: self.source.clone(),
            message: self.message.clone(),
            severity: self.severity,
        }
    }
}

/// A sequence extended by one element contains what it contained, and that element.
pub proof fn lemma_push_contains<A>(items: Seq<A>, item: A, probe: A)
    ensures
        items.push(item).contains(probe) == (items.contains(probe) || probe == item),
{
    if items.push(item).contains(probe) && probe != item {
        let j = choose|j: int| 0 <= j < items.push(item).len() && items.push(item)[j] == probe;
        assert(items[j] == probe);
    }
    if items.contains(probe) {
        let j = choose|j: int| 0 <= j < items.len() && items[j] == probe;
        assert(items.push(item)[j] == probe);
    }
    if probe == item {
        assert(items.push(item)[items.len() as int] == probe);
    }
}

/// Whether two keys are the same notice.
pub fn same_key(a: &ErrorNoticeKey, b: &ErrorNoticeKey) -> (same: bool)
    ensures
        same == (a@ == b@),
{
    a.source == b.source && a.message == b.message && match (a.severity, b.severity) {
        (ErrorSeverity::Warning, ErrorSeverity::Warning) => true,
        (ErrorSeverity::Error, ErrorSeverity::Error) => true,
        _ => false,
    }
}

/// Whether `keys` holds `key`.
pub fn holds_key(keys: &Vec<ErrorNoticeKey>, key: &ErrorNoticeKey) -> (found: bool)
    ensures
        found == key_views(keys@).contains(key@),
{
    let mut i: usize = 0;
    while i < keys.len()
        invariant
            i <= keys@.len(),
            forall|j: int| 0 <= j < i ==> keys@[j]@ != key@,
        decreases keys@.len() - i,
    {
        if same_key(&keys[i], key) {
            assert(key_views(keys@)[i as int] == key@);
            return true;
        }
        i = i + 1;
    }
    proof {
        if key_views(keys@).contains(key@) {
            let j = choose|j: int| 0 <= j < key_views(keys@).len() && key_views(keys@)[j] == key@;
            assert(keys@[j]@ == key@);
        }
    }
    false
}

/// The first sighting of a key found at position `at` or later.
pub proof fn lemma_lookup_from(entries: Seq<(KeyView, u64)>, key: KeyView, at: int)
    requires
        0 <= at <= entries.len(),
        forall|j: int| 0 <= j < at ==> entries[j].0 != key,
    ensures
        lookup(entries, key) == lookup(entries.subrange(at, entries.len() as int), key),
    decreases at,
{
    if at > 0 {
        assert(entries[0].0 != key);
        lemma_lookup_from(entries.drop_first(), key, at - 1);
        assert(entries.drop_first().subrange(at - 1, entries.drop_first().len() as int)
            =~= entries.subrange(at, entries.len() as int));
    } else {
        assert(entries.subrange(0, entries.len() as int) =~= entries);
    }
}

/// A key is recorded exactly when some entry carries it.
pub proof fn lemma_lookup_some(entries: Seq<(KeyView, u64)>, key: KeyView)
    ensures
        lookup(entries, key) is Some <==> exists|j: int| 0 <= j < entries.len() && entries[j].0 == key,
    decreases entries.len(),
{
    if entries.len() > 0 {
        lemma_lookup_some(entries.drop_first(), key);
        if lookup(entries, key) is Some && entries[0].0 != key {
            let j = choose|j: int| 0 <= j < entries.drop_first().len() && entries.drop_first()[j].0 == key;
            assert(entries[j + 1].0 == key);
        }
        if exists|j: int| 0 <= j < entries.len() && entries[j].0 == key {
            let j = choose|j: int| 0 <= j < entries.len() && entries[j].0 == key;
            if j > 0 {
                assert(entries.drop_first()[j - 1].0 == key);
            }
        }
    }
}

impl SeenAt {
    pub fn new() -> (result: SeenAt)
        ensures
            result@.len() == 0,
    {
        SeenAt { entries: Vec::new() }
    }

    /// When `key` was first seen, if it is remembered.
    pub fn get(&self, key: &ErrorNoticeKey) -> (result: Option<u64>)
        ensures
            result == lookup(self@, key@),
    {
        let mut i: usize = 0;
        while i < self.entries.len()
            invariant
                i <= self@.len(),
                self@.len() == self.entries@.len(),
                forall|j: int| 0 <= j < i ==> self@[j].0 != key@,
            decreases self.entries@.len() - i,
        {
            if same_key(&self.entries[i].0, key) {
                proof {
                    lemma_lookup_from(self@, key@, i as int);
                }
                return Some(self.entries[i].1);
            }
            i = i + 1;
        }
        proof {
            lemma_lookup_from(self@, key@, i as int);
        }
        None
    }
}

/// The sightings remembered after reconciling with the current keys: exactly
/// the current keys, each with its earlier sighting or `now`.
pub open spec fn reconciled_seen(old: Seq<(KeyView, u64)>, current: Seq<KeyView>, now: u64, key: KeyView) -> Option<u64> {
    if current.contains(key) {
        Some(
            match lookup(old, key) {
                Some(t) => t,
                None => now,
            },
        )
    } else {
        None
    }
}

/// Inserts `notice` after every notice at least as recent, keeping the list
/// newest first and equal times in arrival order.
pub open spec fn insert_newest_first(sorted: Seq<NoticeView>, notice: NoticeView) -> Seq<NoticeView>
    decreases sorted.len(),
{
    if sorted.len() == 0 {
        seq![notice]
    } else if sorted.last().1 >= notice.1 {
        sorted.push(notice)
    } else {
        insert_newest_first(sorted.drop_last(), notice).push(sorted.last())
    }
}

/// A stable sort by first sighting, newest first.
pub open spec fn newest_first(notices: Seq<NoticeView>) -> Seq<NoticeView>
    decreases notices.len(),
{
    if notices.len() == 0 {
        Seq::empty()
    } else {
        insert_newest_first(newest_first(notices.drop_last()), notices.last())
    }
}

/// The notices shown, before sorting: the current keys that are not
/// dismissed, in the order given, each with its first sighting.
pub open spec fn visible_notices(
    seen: Seq<(KeyView, u64)>,
    dismissed: Seq<KeyView>,
    current: Seq<KeyView>,
) -> Seq<NoticeView>
    decreases current.len(),
{
    if current.len() == 0 {
        Seq::empty()
    } else {
        let before = visible_notices(seen, dismissed, current.drop_last());
        let key = current.last();
        if dismissed.contains(key) {
            before
        } else {
            before.push(
                (
                    key,
                    match lookup(seen, key) {
                        Some(t) => t,
                        None => 0,
                    },
                ),
            )
        }
    }
}

/// Inserts `notice` into a newest-first list.
fn insert_notice(sorted: &mut Vec<ErrorNotice>, notice: ErrorNotice)
    ensures
        final(sorted)@.map_values(|n: ErrorNotice| n@) == insert_newest_first(
            old(sorted)@.map_values(|n: ErrorNotice| n@),
            notice@,
        ),
{
    let ghost given = old(sorted)@.map_values(|n: ErrorNotice| n@);
    let mut at: usize = sorted.len();
    proof {
        assert(given.subrange(0, at as int) =~= given);
        assert(given.subrange(at as int, given.len() as int) =~= Seq::<NoticeView>::empty());
        assert(insert_newest_first(given, notice@) + Seq::<NoticeView>::empty() =~= insert_newest_first(given, notice@));
    }
    // Find the first position from the back whose predecessor is at least as recent.
    while at > 0 && sorted[at - 1].first_seen < notice.first_seen
        invariant
            at <= sorted@.len(),
            sorted@ == old(sorted)@,
            given == sorted@.map_values(|n: ErrorNotice| n@),
            forall|j: int| at <= j < sorted@.len() ==> sorted@[j].first_seen < notice.first_seen,
            insert_newest_first(given, notice@) == insert_newest_first(
                given.subrange(0, at as int),
                notice@,
            ) + given.subrange(at as int, given.len() as int),
        decreases at,
    {
        proof {
            let prefix = given.subrange(0, at as int);
            assert(prefix.drop_last() =~= given.subrange(0, at - 1));
            assert(prefix.last() == given[at - 1]);
            assert(given.subrange(at - 1, given.len() as int) =~= seq![given[at - 1]]
                + given.subrange(at as int, given.len() as int));
        }
        at = at - 1;
    }
    proof {
        let prefix = given.subrange(0, at as int);
        if at > 0 {
            assert(prefix.last() == given[at - 1]);
        }
        assert(insert_newest_first(prefix, notice@) == prefix.push(notice@));
        assert(given.subrange(0, given.len() as int) =~= given);
    }
    sorted.insert(at, notice);
    proof {
        let prefix = given.subrange(0, at as int);
        assert(final(sorted)@.map_values(|n: ErrorNotice| n@) =~= prefix.push(notice@) + given.subrange(
            at as int,
            given.len() as int,
        ));
    }
}

/// Reconciles the remembered sightings and dismissals with the keys that are
/// current `now`, and returns the notices to show, newest first.
pub fn reconcile_error_notices(
    current: Vec<ErrorNoticeKey>,
    seen_at: &mut SeenAt,
    dismissed: &mut Vec<ErrorNoticeKey>,
    now: u64,
) -> (notices: Vec<ErrorNotice>)
    ensures
        forall|key: KeyView|
            #[trigger] lookup(final(seen_at)@, key) == reconciled_seen(
                old(seen_at)@,
                key_views(current@),
                now,
                key,
            ),
        forall|key: KeyView|
            #[trigger] key_views(final(dismissed)@).contains(key) == (key_views(
                old(dismissed)@,
            ).contains(key) && key_views(current@).contains(key)),
        notices@.map_values(|n: ErrorNotice| n@) == newest_first(
            visible_notices(final(seen_at)@, key_views(final(dismissed)@), key_views(current@)),
        ),
{
    // Forget the dismissals whose condition has cleared.
    let mut kept: Vec<ErrorNoticeKey> = Vec::new();
    let mut i: usize = 0;
    while i < dismissed.len()
        invariant
            i <= dismissed@.len(),
            dismissed@ == old(dismissed)@,
            forall|key: KeyView|
                #[trigger] key_views(kept@).contains(key) == (key_views(
                    dismissed@.subrange(0, i as int),
                ).contains(key) && key_views(current@).contains(key)),
        decreases dismissed@.len() - i,
    {
        let ghost before = kept@;
        if holds_key(&current, &dismissed[i]) {
            kept.push(dismissed[i].duplicate());
        }
        proof {
            assert(key_views(dismissed@.subrange(0, i + 1)) =~= key_views(
                dismissed@.subrange(0, i as int),
            ).push(dismissed@[i as int]@));
            if key_views(current@).contains(dismissed@[i as int]@) {
                assert(key_views(kept@) =~= key_views(before).push(dismissed@[i as int]@));
            } else {
                assert(key_views(kept@) =~= key_views(before));
            }
            assert forall|key: KeyView| #[trigger] key_views(kept@).contains(key) == (key_views(
                dismissed@.subrange(0, i + 1),
            ).contains(key) && key_views(current@).contains(key)) by {
                lemma_push_contains(key_views(dismissed@.subrange(0, i as int)), dismissed@[i as int]@, key);
                lemma_push_contains(key_views(before), dismissed@[i as int]@, key);
            }
        }
        i = i + 1;
    }
    proof {
        assert(dismissed@.subrange(0, dismissed@.len() as int) =~= dismissed@);
    }
    *dismissed = kept;
    // Remember each current key's first sighting.
    let mut fresh = SeenAt::new();
    let mut i: usize = 0;
    while i < current.len()
        invariant
            i <= current@.len(),
            fresh@.len() == fresh.entries@.len(),
            forall|key: KeyView|
                #[trigger] lookup(fresh@, key) == reconciled_seen(
                    seen_at@,
                    key_views(current@.subrange(0, i as int)),
                    now,
                    key,
                ),
            seen_at@ == old(seen_at)@,
        decreases current@.len() - i,
    {
        let key = &current[i];
        let ghost prefix = key_views(current@.subrange(0, i as int));
        proof {
            assert(key_views(current@.subrange(0, i + 1)) =~= prefix.push(key@));
        }
        match fresh.get(key) {
            Some(_) => {
                proof {
                    assert forall|k: KeyView| #[trigger] lookup(fresh@, k) == reconciled_seen(
                        seen_at@,
                        key_views(current@.subrange(0, i + 1)),
                        now,
                        k,
                    ) by {
                        lemma_push_contains(prefix, key@, k);
                        if k == key@ {
                            lemma_lookup_some(fresh@, k);
                            let j = choose|j: int| 0 <= j < fresh@.len() && fresh@[j].0 == k;
                            assert(prefix.contains(k));
                        }
                    }
                }
            },
            None => {
                let first = match seen_at.get(key) {
                    Some(t) => t,
                    None => now,
                };
                let ghost before = fresh@;
                proof {
                    lemma_lookup_some(before, key@);
                }
                fresh.entries.push((key.duplicate(), first));
                proof {
                    assert(fresh@ =~= before.push((key@, first)));
                    assert forall|k: KeyView| #[trigger] lookup(fresh@, k) == reconciled_seen(
                        seen_at@,
                        key_views(current@.subrange(0, i + 1)),
                        now,
                        k,
                    ) by {
                        lemma_push_contains(prefix, key@, k);
                        lemma_lookup_some(before, k);
                        lemma_lookup_push(before, (key@, first), k);
                    }
                }
            },
        }
        i = i + 1;
    }
    proof {
        assert(current@.subrange(0, current@.len() as int) =~= current@);
    }
    *seen_at = fresh;
    // Collect the visible notices, newest first.
    let mut notices: Vec<ErrorNotice> = Vec::new();
    let mut i: usize = 0;
    while i < current.len()
        invariant
            i <= current@.len(),
            notices@.map_values(|n: ErrorNotice| n@) == newest_first(
                visible_notices(
                    seen_at@,
                    key_views(dismissed@),
                    key_views(current@.subrange(0, i as int)),
                ),
            ),
            forall|key: KeyView|
                #[trigger] lookup(seen_at@, key) == reconciled_seen(
                    old(seen_at)@,
                    key_views(current@),
                    now,
                    key,
                ),
        decreases current@.len() - i,
    {
        let key = &current[i];
        proof {
            assert(key_views(current@.subrange(0, i + 1)) =~= key_views(
                current@.subrange(0, i as int),
            ).push(key@));
            assert(key_views(current@.subrange(0, i + 1)).drop_last() =~= key_views(
                current@.subrange(0, i as int),
            ));
        }
        let ghost before = notices@.map_values(|n: ErrorNotice| n@);
        proof {
            let prefix = key_views(current@.subrange(0, i as int));
            let visible = visible_notices(seen_at@, key_views(dismissed@), prefix.push(key@));
            assert(prefix.push(key@).drop_last() =~= prefix);
            assert(prefix.push(key@).last() == key@);
            if !key_views(dismissed@).contains(key@) {
                let v = visible_notices(seen_at@, key_views(dismissed@), prefix);
                let entry = (key@, match lookup(seen_at@, key@) { Some(t) => t, None => 0 });
                assert(visible == v.push(entry));
                assert(v.push(entry).drop_last() =~= v);
                assert(newest_first(v.push(entry)) == insert_newest_first(newest_first(v), entry));
            }
        }
        if !holds_key(dismissed, key) {
            let first = match seen_at.get(key) {
                Some(t) => t,
                None => 0,
            };
            insert_notice(&mut notices, ErrorNotice { key: key.duplicate(), first_seen: first });
        }
        i = i + 1;
    }
    proof {
        assert(current@.subrange(0, current@.len() as int) =~= current@);
    }
    notices
}

/// Looking up in a list extended at the end.
pub proof fn lemma_lookup_push(entries: Seq<(KeyView, u64)>, entry: (KeyView, u64), key: KeyView)
    ensures
        lookup(entries.push(entry), key) == match lookup(entries, key) {
            Some(t) => Some(t),
            None => if entry.0 == key {
                Some(entry.1)
            } else {
                None
            },
        },
    decreases entries.len(),
{
    if entries.len() > 0 {
        assert(entries.push(entry)[0] == entries[0]);
        assert(entries.push(entry).drop_first() =~= entries.drop_first().push(entry));
        lemma_lookup_push(entries.drop_first(), entry, key);
    } else {
        assert(entries.push(entry)[0] == entry);
        assert(entries.push(entry).drop_first() =~= Seq::<(KeyView, u64)>::empty());
        assert(lookup(Seq::<(KeyView, u64)>::empty(), key) is None);
    }
}

/// Sorting newest first neither adds nor drops a notice.
pub proof fn lemma_insert_contains(sorted: Seq<NoticeView>, notice: NoticeView, probe: NoticeView)
    ensures
        insert_newest_first(sorted, notice).contains(probe) == (sorted.contains(probe) || probe
            == notice),
    decreases sorted.len(),
{
    if sorted.len() == 0 {
        lemma_push_contains(Seq::<NoticeView>::empty(), notice, probe);
        assert(seq![notice] =~= Seq::<NoticeView>::empty().push(notice));
    } else if sorted.last().1 >= notice.1 {
        lemma_push_contains(sorted, notice, probe);
    } else {
        let rest = sorted.drop_last();
        lemma_insert_contains(rest, notice, probe);
        lemma_push_contains(insert_newest_first(rest, notice), sorted.last(), probe);
        lemma_push_contains(rest, sorted.last(), probe);
        assert(rest.push(sorted.last()) =~= sorted);
    }
}

/// Sorting newest first keeps exactly the notices it was given.
pub proof fn lemma_newest_first_contains(notices: Seq<NoticeView>, probe: NoticeView)
    ensures
        newest_first(notices).contains(probe) == notices.contains(probe),
    decreases notices.len(),
{
    if notices.len() > 0 {
        let rest = notices.drop_last();
        lemma_newest_first_contains(rest, probe);
        lemma_insert_contains(newest_first(rest), notices.last(), probe);
        lemma_push_contains(rest, notices.last(), probe);
        assert(rest.push(notices.last()) =~= notices);
    }
}

/// Which notices are visible: the current, undismissed keys with their sightings.
pub proof fn lemma_visible_contains(
    seen: Seq<(KeyView, u64)>,
    dismissed: Seq<KeyView>,
    current: Seq<KeyView>,
    probe: NoticeView,
)
    ensures
        visible_notices(seen, dismissed, current).contains(probe) == (current.contains(probe.0)
            && !dismissed.contains(probe.0) && probe.1 == match lookup(seen, probe.0) {
            Some(t) => t,
            None => 0,
        }),
    decreases current.len(),
{
    if current.len() > 0 {
        let rest = current.drop_last();
        lemma_visible_contains(seen, dismissed, rest, probe);
        lemma_push_contains(rest, current.last(), probe.0);
        assert(rest.push(current.last()) =~= current);
        if !dismissed.contains(current.last()) {
            let entry = (
                current.last(),
                match lookup(seen, current.last()) {
                    Some(t) => t,
                    None => 0,
                },
            );
            lemma_push_contains(visible_notices(seen, dismissed, rest), entry, probe);
        }
    }
}

/// Inserting into a newest-first list keeps it newest first.
pub proof fn lemma_insert_sorted(sorted: Seq<NoticeView>, notice: NoticeView)
    requires
        forall|i: int, j: int| 0 <= i < j < sorted.len() ==> sorted[i].1 >= sorted[j].1,
    ensures
        insert_newest_first(sorted, notice).len() == sorted.len() + 1,
        forall|i: int, j: int|
            0 <= i < j < insert_newest_first(sorted, notice).len() ==> insert_newest_first(
                sorted,
                notice,
            )[i].1 >= insert_newest_first(sorted, notice)[j].1,
        insert_newest_first(sorted, notice)[0].1 >= notice.1,
    decreases sorted.len(),
{
    if sorted.len() > 0 && sorted.last().1 < notice.1 {
        let rest = sorted.drop_last();
        lemma_insert_sorted(rest, notice);
        let inserted = insert_newest_first(rest, notice);
        lemma_insert_contains(rest, notice, sorted.last());
        assert forall|i: int| 0 <= i < inserted.len() implies #[trigger] inserted[i].1 >= sorted.last().1 by {
            lemma_insert_contains(rest, notice, inserted[i]);
            assert(inserted.contains(inserted[i]));
            if inserted[i] != notice {
                let k = choose|k: int| 0 <= k < rest.len() && rest[k] == inserted[i];
                assert(sorted[k] == rest[k]);
            }
        }
    }
}

/// The problems menu lists the newest notices first.
pub proof fn lemma_notices_are_newest_first(notices: Seq<NoticeView>)
    ensures
        forall|i: int, j: int|
            0 <= i < j < newest_first(notices).len() ==> newest_first(notices)[i].1
                >= newest_first(notices)[j].1,
    decreases notices.len(),
{
    if notices.len() > 0 {
        lemma_notices_are_newest_first(notices.drop_last());
        lemma_insert_sorted(newest_first(notices.drop_last()), notices.last());
    }
}

/// A dismissed notice stays hidden for as long as its condition persists.
pub proof fn lemma_dismissed_notice_stays_hidden(
    seen: Seq<(KeyView, u64)>,
    dismissed: Seq<KeyView>,
    current: Seq<KeyView>,
    key: KeyView,
    first_seen: u64,
)
    requires
        dismissed.contains(key),
    ensures
        !newest_first(visible_notices(seen, dismissed, current)).contains((key, first_seen)),
{
    lemma_newest_first_contains(visible_notices(seen, dismissed, current), (key, first_seen));
    lemma_visible_contains(seen, dismissed, current, (key, first_seen));
}

/// A dismissed notice returns only after its condition cleared: once a
/// reconcile has seen the condition gone, its recurrence is shown again, as
/// new, with the time it recurred.
pub proof fn lemma_cleared_notice_returns_as_new(
    seen0: Seq<(KeyView, u64)>,
    dismissed0: Seq<KeyView>,
    cleared: Seq<KeyView>,
    cleared_at: u64,
    seen1: Seq<(KeyView, u64)>,
    dismissed1: Seq<KeyView>,
    recurring: Seq<KeyView>,
    recurred_at: u64,
    seen2: Seq<(KeyView, u64)>,
    dismissed2: Seq<KeyView>,
    key: KeyView,
)
    requires
        !cleared.contains(key),
        recurring.contains(key),
        forall|k: KeyView| #[trigger] lookup(seen1, k) == reconciled_seen(seen0, cleared, cleared_at, k),
        forall|k: KeyView| #[trigger] dismissed1.contains(k) == (dismissed0.contains(k) && cleared.contains(k)),
        forall|k: KeyView| #[trigger] lookup(seen2, k) == reconciled_seen(seen1, recurring, recurred_at, k),
        forall|k: KeyView| #[trigger] dismissed2.contains(k) == (dismissed1.contains(k) && recurring.contains(k)),
    ensures
        newest_first(visible_notices(seen2, dismissed2, recurring)).contains((key, recurred_at)),
{
    assert(lookup(seen1, key) is None);
    assert(lookup(seen2, key) == Some(recurred_at));
    assert(!dismissed1.contains(key));
    assert(!dismissed2.contains(key));
    lemma_newest_first_contains(visible_notices(seen2, dismissed2, recurring), (key, recurred_at));
    lemma_visible_contains(seen2, dismissed2, recurring, (key, recurred_at));
}

/// How long ago, compactly, a condition of `elapsed` seconds was first seen.
pub open spec fn relative_time_text(elapsed: nat) -> Seq<char> {
    if elapsed < 60 {
        "now"@
    } else if elapsed < 3600 {
        decimal(elapsed / 60) + "m ago"@
    } else if elapsed < 86400 {
        decimal(elapsed / 3600) + "h ago"@
    } else {
        decimal(elapsed / 86400) + "d ago"@
    }
}

/// The whole seconds from `first_seen` to `now` (both in milliseconds), or
/// zero when `now` is earlier.
pub open spec fn elapsed_seconds(first_seen: u64, now: u64) -> nat {
    if now >= first_seen {
        ((now - first_seen) / 1000) as nat
    } else {
        0
    }
}

/// The age label of a notice first seen at `first_seen`, at `now`.
pub fn relative_error_time(first_seen: u64, now: u64) -> (text: String)
    ensures
        text@ == relative_time_text(elapsed_seconds(first_seen, now)),
{
    let elapsed = if now >= first_seen {
        (now - first_seen) / 1000
    } else {
        0
    };
    if elapsed < 60 {
        "now".to_owned()
    } else {
        let (count, unit) = if elapsed < 3600 {
            (elapsed / 60, "m ago")
        } else if elapsed < 86400 {
            (elapsed / 3600, "h ago")
        } else {
            (elapsed / 86400, "d ago")
        };
        let mut text = decimal_string(count);
        text.append(unit);
        text
    }
}

/// The characters a regular expression gives a meaning of their own.
pub open spec fn is_regex_special(c: char) -> bool {
    c == '.' || c == '^' || c == '$' || c == '*' || c == '+' || c == '?' || c == '(' || c == ')'
        || c == '[' || c == ']' || c == '{' || c == '}' || c == '|' || c == '\\'
}

/// A regular expression that matches `text` literally: each special character
/// is preceded by a backslash.
pub open spec fn regex_literal(text: Seq<char>) -> Seq<char>
    decreases text.len(),
{
    if text.len() == 0 {
        Seq::empty()
    } else {
        let c = text.last();
        regex_literal(text.drop_last()) + if is_regex_special(c) {
            seq!['\\', c]
        } else {
            seq![c]
        }
    }
}

/// Escapes user search text so the terminal search treats it as a literal.
pub fn regex_escape_literal(text: &str) -> (escaped: String)
    ensures
        escaped@ == regex_literal(text@),
{
    let chars = chars_of(text);
    let mut out: Vec<char> = Vec::new();
    let mut i: usize = 0;
    while i < chars.len()
        invariant
            chars@ == text@,
            i <= chars@.len(),
            out@ == regex_literal(chars@.subrange(0, i as int)),
        decreases chars@.len() - i,
    {
        let c = chars[i];
        proof {
            assert(chars@.subrange(0, i + 1).drop_last() =~= chars@.subrange(0, i as int));
        }
        let ghost before = out@;
        if c == '.' || c == '^' || c == '$' || c == '*' || c == '+' || c == '?' || c == '(' || c
            == ')' || c == '[' || c == ']' || c == '{' || c == '}' || c == '|' || c == '\\' {
            out.push('\\');
            out.push(c);
            assert(out@ =~= before + seq!['\\', c]);
        } else {
            out.push(c);
            assert(out@ =~= before + seq![c]);
        }
        i = i + 1;
    }
    assert(chars@.subrange(0, chars@.len() as int) =~= chars@);
    string_from(&out)
}

/// A space's name and its current problem, if any.
pub struct SpaceProblem {
    pub name: String,
    pub problem: Option<String>,
}

/// The notice keys a space contributes.
pub open spec fn space_notice_keys(spaces: Seq<SpaceProblem>) -> Seq<KeyView>
    decreases spaces.len(),
{
    if spaces.len() == 0 {
        Seq::empty()
    } else {
        let last = spaces.last();
        space_notice_keys(spaces.drop_last()) + match last.problem {
            Some(message) => seq![("Space · "@ + last.name@, message@, ErrorSeverity::Warning)],
            None => Seq::empty(),
        }
    }
}

/// The keys of every current condition: the backend's, the application's
/// problem, then each space's problem in space order.
pub open spec fn spec_current_error_keys(
    backend: BackendView,
    problem: Option<Seq<char>>,
    spaces: Seq<SpaceProblem>,
) -> Seq<KeyView> {
    let backend_keys = match backend {
        BackendView::Recovering(message) => seq![
            ("Terminal backend"@, message, ErrorSeverity::Warning),
        ],
        BackendView::Failed(message) => seq![("Terminal backend"@, message, ErrorSeverity::Error)],
        _ => Seq::empty(),
    };
    let problem_keys = match problem {
        Some(message) => seq![("Chartr"@, message, ErrorSeverity::Warning)],
        None => Seq::empty(),
    };
    backend_keys + problem_keys + space_notice_keys(spaces)
}

/// The terminal backend contributes a notice exactly when it is neither
/// starting nor ready: while it is being recovered, a warning with its
/// message; once it has failed, an error with its message. That notice comes
/// first, ahead of the application's problem (a warning from "Chartr") and
/// the spaces' problems, which a starting or ready backend leaves alone.
pub proof fn lemma_backend_notice_leads(message: Seq<char>, problem: Option<Seq<char>>, spaces: Seq<SpaceProblem>)
    ensures
        ({
            let rest = spec_current_error_keys(BackendView::Ready, problem, spaces);
            &&& spec_current_error_keys(BackendView::Starting, problem, spaces) == rest
            &&& spec_current_error_keys(BackendView::Recovering(message), problem, spaces)
                == seq![("Terminal backend"@, message, ErrorSeverity::Warning)] + rest
            &&& spec_current_error_keys(BackendView::Failed(message), problem, spaces)
                == seq![("Terminal backend"@, message, ErrorSeverity::Error)] + rest
            &&& rest == match problem {
                Some(m) => seq![("Chartr"@, m, ErrorSeverity::Warning)],
                None => Seq::<KeyView>::empty(),
            } + space_notice_keys(spaces)
        }),
{
    let rest = spec_current_error_keys(BackendView::Ready, problem, spaces);
    let problem_keys = match problem {
        Some(m) => seq![("Chartr"@, m, ErrorSeverity::Warning)],
        None => Seq::<KeyView>::empty(),
    };
    assert(rest =~= problem_keys + space_notice_keys(spaces));
    assert(spec_current_error_keys(BackendView::Starting, problem, spaces) =~= rest);
    assert(spec_current_error_keys(BackendView::Recovering(message), problem, spaces)
        =~= seq![("Terminal backend"@, message, ErrorSeverity::Warning)] + rest);
    assert(spec_current_error_keys(BackendView::Failed(message), problem, spaces)
        =~= seq![("Terminal backend"@, message, ErrorSeverity::Error)] + rest);
}

/// Collects the keys of every current condition.
pub fn current_error_keys(backend: &Backend, problem: &Option<String>, spaces: &Vec<SpaceProblem>) -> (keys: Vec<ErrorNoticeKey>)
    ensures
        key_views(keys@) == spec_current_error_keys(
            backend@,
            match problem {
                Some(p) => Some(p@),
                None => None,
            },
            spaces@,
        ),
{
    let mut keys: Vec<ErrorNoticeKey> = Vec::new();
    match backend {
        Backend::Recovering(message) => keys.push(
            ErrorNoticeKey {
                source: "Terminal backend".to_owned(),
                message: message.clone(),
                severity: ErrorSeverity::Warning,
            },
        ),
        Backend::Failed(message) => keys.push(
            ErrorNoticeKey {
                source: "Terminal backend".to_owned(),
                message: message.clone(),
                severity: ErrorSeverity::Error,
            },
        ),
        _ => {},
    }
    if let Some(message) = problem {
        keys.push(
            ErrorNoticeKey {
                source: "Chartr".to_owned(),
                message: message.clone(),
                severity: ErrorSeverity::Warning,
            },
        );
    }
    let ghost head = key_views(keys@);
    let mut i: usize = 0;
    while i < spaces.len()
        invariant
            i <= spaces@.len(),
            key_views(keys@) == head + space_notice_keys(spaces@.subrange(0, i as int)),
        decreases spaces@.len() - i,
    {
        let ghost before = key_views(keys@);
        proof {
            assert(spaces@.subrange(0, i + 1).drop_last() =~= spaces@.subrange(0, i as int));
        }
        if let Some(message) = &spaces[i].problem {
            let mut source = "Space · ".to_owned();
            source.append(spaces[i].name.as_str());
            keys.push(
                ErrorNoticeKey {
                    source,
                    message: message.clone(),
                    severity: ErrorSeverity::Warning,
                },
            );
            assert(key_views(keys@) =~= before.push(keys@.last()@));
        }
        i = i + 1;
    }
    proof {
        assert(spaces@.subrange(0, spaces@.len() as int) =~= spaces@);
    }
    keys
}

} // verus!
