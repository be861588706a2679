//! Ordering the sidebar's spaces.
//!
//! The sidebar sorter only sees the folder-backed space cards; the synthetic
//! free-sessions space lives outside its scroll container. A drop therefore
//! names a slot among the movable cards, and this module maps it back to
//! the complete list of spaces. At start-up the spaces are seated again in
//! the order last saved.

use vstd::prelude::*;

use crate::persistence::{PersistedSpace, SpaceKind};

verus! {

/// The indices, in increasing order, at which `flags` holds `true`.
pub open spec fn true_positions(flags: Seq<bool>) -> Seq<int>
    decreases flags.len(),
{
    if flags.len() == 0 {
        Seq::empty()
    } else {
        let before = true_positions(flags.drop_last());
        if flags.last() {
            before.push(flags.len() - 1)
        } else {
            before
        }
    }
}

/// How many of `flags` are `true`.
pub open spec fn count_true(flags: Seq<bool>) -> nat {
    true_positions(flags).len()
}

/// Every position is in range, holds `true`, and the positions increase.
pub proof fn lemma_true_positions(flags: Seq<bool>)
    ensures
        true_positions(flags).len() <= flags.len(),
        forall|k: int|
            0 <= k < true_positions(flags).len() ==> 0 <= #[trigger] true_positions(flags)[k]
                < flags.len() && flags[true_positions(flags)[k]],
        forall|j: int, k: int|
            0 <= j < k < true_positions(flags).len() ==> #[trigger] true_positions(flags)[j]
                < #[trigger] true_positions(flags)[k],
        forall|i: int|
            0 <= i < flags.len() && flags[i] ==> #[trigger] true_positions(flags).contains(i),
    decreases flags.len(),
{
    if flags.len() > 0 {
        let rest = flags.drop_last();
        lemma_true_positions(rest);
        assert forall|i: int| 0 <= i < flags.len() && flags[i] implies #[trigger] true_positions(
            flags,
        ).contains(i) by {
            if i < flags.len() - 1 {
                assert(rest[i] == flags[i]);
                assert(true_positions(rest).contains(i));
                let k = choose|k: int|
                    0 <= k < true_positions(rest).len() && true_positions(rest)[k] == i;
                if flags.last() {
                    assert(true_positions(flags) == true_positions(rest).push(flags.len() - 1));
                } else {
                    assert(true_positions(flags) == true_positions(rest));
                }
                assert(true_positions(flags)[k] == i);
            } else {
                assert(true_positions(flags).last() == i);
            }
        }
    }
}

/// Counting the `true` flags of a prefix one element longer.
pub proof fn lemma_count_prefix_step(flags: Seq<bool>, i: int)
    requires
        0 <= i < flags.len(),
    ensures
        count_true(flags.subrange(0, i + 1)) == count_true(flags.subrange(0, i)) + if flags[i] {
            1int
        } else {
            0int
        },
{
    assert(flags.subrange(0, i + 1).drop_last() =~= flags.subrange(0, i));
}

/// The positions found in a prefix are exactly the first positions of the whole.
pub proof fn lemma_prefix_positions(flags: Seq<bool>, end: int)
    requires
        0 <= end <= flags.len(),
    ensures
        count_true(flags.subrange(0, end)) <= count_true(flags),
        true_positions(flags).subrange(0, count_true(flags.subrange(0, end) ) as int)
            == true_positions(flags.subrange(0, end)),
        forall|k: int|
            count_true(flags.subrange(0, end)) <= k < true_positions(flags).len() ==> end
                <= #[trigger] true_positions(flags)[k],
    decreases flags.len(),
{
    if end == flags.len() {
        assert(flags.subrange(0, end) =~= flags);
        assert(true_positions(flags).subrange(0, count_true(flags) as int) =~= true_positions(
            flags,
        ));
    } else {
        let rest = flags.drop_last();
        assert(flags.subrange(0, end) =~= rest.subrange(0, end));
        lemma_prefix_positions(rest, end);
        lemma_true_positions(rest);
        let c = count_true(flags.subrange(0, end));
        if flags.last() {
            assert(true_positions(flags) == true_positions(rest).push(flags.len() - 1));
            assert(true_positions(flags).subrange(0, c as int) =~= true_positions(rest).subrange(
                0,
                c as int,
            ));
        } else {
            assert(true_positions(flags) == true_positions(rest));
        }
    }
}

/// Just before the `k`-th `true` flag there are exactly `k` of them.
pub proof fn lemma_count_before_position(flags: Seq<bool>, k: int)
    requires
        0 <= k < true_positions(flags).len(),
    ensures
        count_true(flags.subrange(0, true_positions(flags)[k])) == k,
{
    lemma_true_positions(flags);
    let p = true_positions(flags)[k];
    lemma_prefix_positions(flags, p);
    let c = count_true(flags.subrange(0, p)) as int;
    if c > k {
        assert(true_positions(flags).subrange(0, c)[k] == true_positions(flags)[k]);
        lemma_true_positions(flags.subrange(0, p));
        assert(true_positions(flags.subrange(0, p))[k] < p);
    }
    if c < k {
        assert(true_positions(flags)[c] < true_positions(flags)[k]);
    }
}

/// Just after the last `true` flag, all of them have been counted.
pub proof fn lemma_count_through_last(flags: Seq<bool>)
    requires
        true_positions(flags).len() > 0,
    ensures
        true_positions(flags).last() + 1 <= flags.len(),
        count_true(flags.subrange(0, true_positions(flags).last() + 1)) == count_true(flags),
{
    lemma_true_positions(flags);
    let p = true_positions(flags).last() + 1;
    lemma_prefix_positions(flags, p);
    let c = count_true(flags.subrange(0, p)) as int;
    if c < true_positions(flags).len() {
        let last = true_positions(flags).len() - 1;
        if c < last {
            assert(true_positions(flags)[c] < true_positions(flags)[last]);
        }
    }
}

/// Counting over a concatenation adds the two counts.
pub proof fn lemma_count_concat(a: Seq<bool>, b: Seq<bool>)
    ensures
        count_true(a + b) == count_true(a) + count_true(b),
    decreases b.len(),
{
    if b.len() > 0 {
        assert((a + b).drop_last() =~= a + b.drop_last());
        lemma_count_concat(a, b.drop_last());
    } else {
        assert(a + b =~= a);
    }
}

/// Removing one element removes its flag from the count.
pub proof fn lemma_count_remove(flags: Seq<bool>, i: int)
    requires
        0 <= i < flags.len(),
    ensures
        count_true(flags.remove(i)) == count_true(flags) - if flags[i] {
            1int
        } else {
            0int
        },
{
    let before = flags.subrange(0, i);
    let after = flags.subrange(i + 1, flags.len() as int);
    assert(flags.remove(i) =~= before + after);
    assert(flags =~= before + seq![flags[i]] + after);
    lemma_count_concat(before, after);
    lemma_count_concat(before + seq![flags[i]], after);
    lemma_count_concat(before, seq![flags[i]]);
    assert(seq![flags[i]].drop_last() =~= Seq::<bool>::empty());
    assert(true_positions(Seq::<bool>::empty()) =~= Seq::<int>::empty());
    assert(count_true(seq![flags[i]]) == if flags[i] {
        1int
    } else {
        0int
    });
}

/// The identity arrangement with one index taken out.
pub proof fn lemma_identity_remove(n: nat, from: int)
    requires
        0 <= from < n,
        n <= usize::MAX,
    ensures
        identity_order(n).remove(from).len() == n - 1,
        forall|i: int|
            0 <= i < n - 1 ==> #[trigger] identity_order(n).remove(from)[i] as int
                == if i < from {
                i
            } else {
                i + 1
            },
{
}

/// A drop rearranges the spaces and never loses or duplicates one: the new
/// order is a permutation of the old indices.
pub proof fn lemma_planned_order_is_permutation(flags: Seq<bool>, from: int, target: int)
    requires
        0 <= from < flags.len(),
        flags.len() <= usize::MAX,
        flags[from],
        0 <= target,
    ensures
        planned_order(flags, from, target).len() == flags.len(),
        forall|j: int|
            0 <= j < flags.len() ==> #[trigger] planned_order(flags, from, target).contains(
                j as usize,
            ),
        forall|a: int, b: int|
            0 <= a < b < flags.len() ==> #[trigger] planned_order(flags, from, target)[a]
                != #[trigger] planned_order(flags, from, target)[b],
{
    let n = flags.len();
    let identity = identity_order(n);
    let rest = identity.remove(from);
    let rest_flags = flags.remove(from);
    let positions = true_positions(rest_flags);
    lemma_true_positions(rest_flags);
    lemma_identity_remove(n, from);
    let p = insertion_index(flags, from, target);
    assert(0 <= p <= rest.len()) by {
        lemma_count_remove(flags, from);
        lemma_true_positions(flags);
        assert(true_positions(flags).contains(from));
        if positions.len() > 0 {
            assert(positions.last() < rest_flags.len());
        }
    }
    let r = planned_order(flags, from, target);
    assert(r == rest.insert(p, from as usize));
    assert forall|j: int| 0 <= j < n implies #[trigger] r.contains(j as usize) by {
        if j == from {
            assert(r[p] == from as usize);
        } else if j < from {
            assert(rest[j] == j as usize);
            if j < p {
                assert(r[j] == j as usize);
            } else {
                assert(r[j + 1] == j as usize);
            }
        } else {
            assert(rest[j - 1] == j as usize);
            if j - 1 < p {
                assert(r[j - 1] == j as usize);
            } else {
                assert(r[j] == j as usize);
            }
        }
    }
    lemma_identity_remove(n, from);
    assert forall|a: int, b: int| 0 <= a < b < n implies #[trigger] r[a] != #[trigger] r[b] by {
        let ra = if a < p { rest[a] } else if a == p { from as usize } else { rest[a - 1] };
        let rb = if b < p { rest[b] } else if b == p { from as usize } else { rest[b - 1] };
        assert(r[a] == ra);
        assert(r[b] == rb);
    }
}

/// The dropped space lands in the card slot it was dropped on: in the new
/// order, exactly `clamped_slot` movable spaces come before it.
pub proof fn lemma_moved_space_lands_in_its_slot(flags: Seq<bool>, from: int, target: int)
    requires
        0 <= from < flags.len(),
        flags.len() <= usize::MAX,
        flags[from],
        0 <= target,
    ensures
        ({
            let order = planned_order(flags, from, target);
            let at = insertion_index(flags, from, target);
            &&& 0 <= at < order.len()
            &&& order[at] == from as usize
            &&& count_true(Seq::new(at as nat, |i: int| flags[order[i] as int])) == clamped_slot(
                flags,
                target,
            )
        }),
{
    let n = flags.len();
    let identity = identity_order(n);
    let rest = identity.remove(from);
    let rest_flags = flags.remove(from);
    let positions = true_positions(rest_flags);
    lemma_true_positions(rest_flags);
    lemma_count_remove(flags, from);
    lemma_true_positions(flags);
    assert(true_positions(flags).contains(from));
    let slot = clamped_slot(flags, target);
    let p = insertion_index(flags, from, target);
    let order = planned_order(flags, from, target);
    assert(positions.len() == count_true(flags) - 1);
    if slot < positions.len() {
        lemma_count_before_position(rest_flags, slot);
    } else {
        if positions.len() > 0 {
            lemma_count_through_last(rest_flags);
        } else {
            assert(rest_flags.subrange(0, rest_flags.len() as int) =~= rest_flags);
        }
    }
    assert(0 <= p <= rest.len());
    assert(count_true(rest_flags.subrange(0, p)) == slot);
    lemma_identity_remove(n, from);
    assert forall|i: int| 0 <= i < p implies flags[#[trigger] order[i] as int] == rest_flags[i] by {
        assert(order[i] == rest[i]);
    }
    assert(Seq::new(p as nat, |i: int| flags[order[i] as int]) =~= rest_flags.subrange(0, p));
}

/// The number of `true` flags among `flags[..end]`.
pub fn count_movable(flags: &Vec<bool>, end: usize) -> (count: usize)
    requires
        end <= flags@.len(),
    ensures
        count == count_true(flags@.subrange(0, end as int)),
{
    let mut count: usize = 0;
    let mut i: usize = 0;
    while i < end
        invariant
            end <= flags@.len(),
            i <= end,
            count == count_true(flags@.subrange(0, i as int)),
            count <= i,
        decreases end - i,
    {
        proof {
            lemma_count_prefix_step(flags@, i as int);
        }
        if flags[i] {
            count = count + 1;
        }
        i = i + 1;
    }
    count
}

/// The indices at which `flags` holds `true`.
pub fn movable_positions(flags: &Vec<bool>) -> (positions: Vec<usize>)
    ensures
        positions@.len() == true_positions(flags@).len(),
        forall|k: int|
            0 <= k < positions@.len() ==> positions@[k] as int == true_positions(flags@)[k],
{
    let mut positions: Vec<usize> = Vec::new();
    let mut i: usize = 0;
    while i < flags.len()
        invariant
            i <= flags@.len(),
            positions@.len() == true_positions(flags@.subrange(0, i as int)).len(),
            forall|k: int|
                0 <= k < positions@.len() ==> positions@[k] as int == true_positions(
                    flags@.subrange(0, i as int),
                )[k],
        decreases flags@.len() - i,
    {
        assert(flags@.subrange(0, i + 1).drop_last() =~= flags@.subrange(0, i as int));
        if flags[i] {
            positions.push(i);
        }
        i = i + 1;
    }
    assert(flags@.subrange(0, flags@.len() as int) =~= flags@);
    positions
}

/// What committing a drop of one space card does to the list of spaces.
#[derive(Debug, Clone, PartialEq, Eq)]
pub enum SpaceMove {
    /// The dragged space is not a movable card (or does not exist).
    Refused,
    /// The card was dropped back into its own slot.
    InPlace,
    /// The new arrangement, as indices into the old list.
    Reordered(Vec<usize>),
}

/// The arrangement that leaves every space where it is.
pub open spec fn identity_order(n: nat) -> Seq<usize> {
    Seq::new(n, |i: int| i as usize)
}

/// The card slot a drop lands in: the requested one, or the last slot.
pub open spec fn clamped_slot(flags: Seq<bool>, target: int) -> int {
    if target < count_true(flags) - 1 {
        target
    } else {
        count_true(flags) - 1
    }
}

/// Where the moved space is inserted into the list without it.
pub open spec fn insertion_index(flags: Seq<bool>, from: int, target: int) -> int {
    let rest = flags.remove(from);
    let positions = true_positions(rest);
    let slot = clamped_slot(flags, target);
    if slot < positions.len() {
        positions[slot]
    } else if positions.len() > 0 {
        positions.last() + 1
    } else {
        rest.len() as int
    }
}

/// The complete arrangement after moving the space at `from` to card slot `target`.
pub open spec fn planned_order(flags: Seq<bool>, from: int, target: int) -> Seq<usize> {
    let identity = identity_order(flags.len());
    identity.remove(from).insert(insertion_index(flags, from, target), from as usize)
}

/// The exact outcome of dropping the space at `from` onto card slot `target`.
pub open spec fn spec_plan_space_move(flags: Seq<bool>, from: int, target: int) -> Option<
    Option<Seq<usize>>,
> {
    if from < 0 || from >= flags.len() || !flags[from] {
        None
    } else if count_true(flags.subrange(0, from)) == clamped_slot(flags, target) {
        Some(None)
    } else {
        Some(Some(planned_order(flags, from, target)))
    }
}

/// Plans the drop of the space at `from` onto the `target`-th movable card
/// slot. `movable[i]` says whether space `i` is a sortable folder card.
pub fn plan_space_move(movable: &Vec<bool>, from: usize, target: usize) -> (result: SpaceMove)
    ensures
        match spec_plan_space_move(movable@, from as int, target as int) {
            None => result is Refused,
            Some(None) => result is InPlace,
            Some(Some(order)) => result matches SpaceMove::Reordered(v) && v@ == order,
        },
{
    let n = movable.len();
    if from >= n || !movable[from] {
        return SpaceMove::Refused;
    }
    let count = count_movable(movable, n);
    let from_movable = count_movable(movable, from);
    proof {
        assert(movable@.subrange(0, n as int) =~= movable@);
        lemma_true_positions(movable@);
        assert(true_positions(movable@).contains(from as int));
    }
    let slot = if target < count - 1 {
        target
    } else {
        count - 1
    };
    if from_movable == slot {
        return SpaceMove::InPlace;
    }
    let mut rest: Vec<usize> = Vec::new();
    let mut rest_flags: Vec<bool> = Vec::new();
    let mut i: usize = 0;
    let ghost identity = identity_order(movable@.len());
    while i < n
        invariant
            n == movable@.len(),
            from < n,
            i <= n,
            identity == identity_order(movable@.len()),
            i <= from ==> rest@ == identity.subrange(0, i as int),
            i > from ==> rest@ == identity.subrange(0, i as int).remove(from as int),
            i <= from ==> rest_flags@ == movable@.subrange(0, i as int),
            i > from ==> rest_flags@ == movable@.subrange(0, i as int).remove(from as int),
        decreases n - i,
    {
        if i != from {
            rest.push(i);
            rest_flags.push(movable[i]);
        }
        proof {
            if i < from {
                assert(identity.subrange(0, i + 1) =~= identity.subrange(0, i as int).push(
                    i as usize,
                ));
                assert(movable@.subrange(0, i + 1) =~= movable@.subrange(0, i as int).push(
                    movable@[i as int],
                ));
            } else if i == from {
                assert(identity.subrange(0, i + 1).remove(from as int) =~= identity.subrange(
                    0,
                    i as int,
                ));
                assert(movable@.subrange(0, i + 1).remove(from as int) =~= movable@.subrange(
                    0,
                    i as int,
                ));
            } else {
                assert(identity.subrange(0, i + 1).remove(from as int) =~= identity.subrange(
                    0,
                    i as int,
                ).remove(from as int).push(i as usize));
                assert(movable@.subrange(0, i + 1).remove(from as int) =~= movable@.subrange(
                    0,
                    i as int,
                ).remove(from as int).push(movable@[i as int]));
            }
        }
        i = i + 1;
    }
    proof {
        assert(identity.subrange(0, n as int) =~= identity);
        assert(movable@.subrange(0, n as int) =~= movable@);
    }
    let positions = movable_positions(&rest_flags);
    proof {
        lemma_true_positions(rest_flags@);
    }
    let insert_at = if slot < positions.len() {
        positions[slot]
    } else if positions.len() > 0 {
        positions[positions.len() - 1] + 1
    } else {
        rest.len()
    };
    rest.insert(insert_at, from);
    SpaceMove::Reordered(rest)
}

/// A space the registry and state could recover: its key and whether it is
/// the synthetic free-sessions space.
pub struct LiveSpace {
    pub key: String,
    pub ad_hoc: bool,
}

/// The first position `j` of `remaining` whose space has key `key`.
pub open spec fn first_match(keys: Seq<Seq<char>>, remaining: Seq<usize>, key: Seq<char>) -> Option<int>
    decreases remaining.len(),
{
    if remaining.len() == 0 {
        None
    } else if keys[remaining[0] as int] == key {
        Some(0)
    } else {
        match first_match(keys, remaining.drop_first(), key) {
            Some(j) => Some(j + 1),
            None => None,
        }
    }
}

/// The first position of `remaining` whose space is the free-sessions space.
pub open spec fn first_ad_hoc(flags: Seq<bool>, remaining: Seq<usize>) -> Option<int>
    decreases remaining.len(),
{
    if remaining.len() == 0 {
        None
    } else if flags[remaining[0] as int] {
        Some(0)
    } else {
        match first_ad_hoc(flags, remaining.drop_first()) {
            Some(j) => Some(j + 1),
            None => None,
        }
    }
}

/// Seats spaces in the order of `saved`: each saved key takes the first
/// not yet seated space with that key. Gives the seated indices and the rest,
/// in the order given.
pub open spec fn seat(keys: Seq<Seq<char>>, saved: Seq<Seq<char>>) -> (Seq<usize>, Seq<usize>)
    decreases saved.len(),
{
    if saved.len() == 0 {
        (Seq::empty(), identity_order(keys.len()))
    } else {
        let (seated, rest) = seat(keys, saved.drop_last());
        match first_match(keys, rest, saved.last()) {
            Some(j) => (seated.push(rest[j]), rest.remove(j)),
            None => (seated, rest),
        }
    }
}

/// The start-up order of the spaces, as indices into `keys`: with nothing
/// saved, the order given; otherwise the saved order, then the spaces the
/// state does not know in their given order, except that a free-sessions
/// space goes first when the saved order predates it.
pub open spec fn restored_order(
    keys: Seq<Seq<char>>,
    ad_hoc: Seq<bool>,
    saved: Seq<Seq<char>>,
    saved_has_ad_hoc: bool,
) -> Seq<usize> {
    if saved.len() == 0 {
        identity_order(keys.len())
    } else {
        let (seated, rest) = seat(keys, saved);
        match first_ad_hoc(ad_hoc, rest) {
            Some(j) if !saved_has_ad_hoc => seq![rest[j]] + seated + rest.remove(j),
            _ => seated + rest,
        }
    }
}

pub open spec fn live_keys(live: Seq<LiveSpace>) -> Seq<Seq<char>> {
    live.map_values(|s: LiveSpace| s.key@)
}

pub open spec fn live_ad_hoc(live: Seq<LiveSpace>) -> Seq<bool> {
    live.map_values(|s: LiveSpace| s.ad_hoc)
}

pub open spec fn saved_keys(saved: Seq<PersistedSpace>) -> Seq<Seq<char>> {
    saved.map_values(|s: PersistedSpace| s.key@)
}

pub open spec fn saved_has_ad_hoc(saved: Seq<PersistedSpace>) -> bool {
    exists|i: int| 0 <= i < saved.len() && saved[i].kind == SpaceKind::AdHoc
}

proof fn lemma_first_match_found(keys: Seq<Seq<char>>, remaining: Seq<usize>, key: Seq<char>, i: int)
    requires
        0 <= i < remaining.len(),
        keys[remaining[i] as int] == key,
        forall|k: int| 0 <= k < i ==> keys[remaining[k] as int] != key,
    ensures
        first_match(keys, remaining, key) == Some(i),
    decreases i,
{
    if i > 0 {
        lemma_first_match_found(keys, remaining.drop_first(), key, i - 1);
    }
}

proof fn lemma_first_match_absent(keys: Seq<Seq<char>>, remaining: Seq<usize>, key: Seq<char>)
    requires
        forall|k: int| 0 <= k < remaining.len() ==> keys[remaining[k] as int] != key,
    ensures
        first_match(keys, remaining, key) == None::<int>,
    decreases remaining.len(),
{
    if remaining.len() > 0 {
        lemma_first_match_absent(keys, remaining.drop_first(), key);
    }
}

proof fn lemma_first_ad_hoc_found(flags: Seq<bool>, remaining: Seq<usize>, i: int)
    requires
        0 <= i < remaining.len(),
        flags[remaining[i] as int],
        forall|k: int| 0 <= k < i ==> !flags[remaining[k] as int],
    ensures
        first_ad_hoc(flags, remaining) == Some(i),
    decreases i,
{
    if i > 0 {
        lemma_first_ad_hoc_found(flags, remaining.drop_first(), i - 1);
    }
}

proof fn lemma_first_ad_hoc_absent(flags: Seq<bool>, remaining: Seq<usize>)
    requires
        forall|k: int| 0 <= k < remaining.len() ==> !flags[remaining[k] as int],
    ensures
        first_ad_hoc(flags, remaining) == None::<int>,
    decreases remaining.len(),
{
    if remaining.len() > 0 {
        lemma_first_ad_hoc_absent(flags, remaining.drop_first());
    }
}

/// Seats the recovered spaces in the last saved order (see
/// [`restored_order`]); the answer lists indices into `live`.
pub fn restore_space_order(live: &Vec<LiveSpace>, saved: &Vec<PersistedSpace>) -> (order: Vec<usize>)
    ensures
        order@ == restored_order(
            live_keys(live@),
            live_ad_hoc(live@),
            saved_keys(saved@),
            saved_has_ad_hoc(saved@),
        ),
{
    let ghost keys = live_keys(live@);
    let ghost flags = live_ad_hoc(live@);
    let n = live.len();
    let mut rest: Vec<usize> = Vec::new();
    let mut i: usize = 0;
    while i < n
        invariant
            n == live@.len(),
            i <= n,
            rest@ == identity_order(i as nat),
        decreases n - i,
    {
        rest.push(i);
        assert(rest@ =~= identity_order((i + 1) as nat));
        i = i + 1;
    }
    if saved.len() == 0 {
        assert(saved_keys(saved@).len() == 0);
        return rest;
    }
    let mut seated: Vec<usize> = Vec::new();
    let mut any_ad_hoc = false;
    let mut s: usize = 0;
    assert(saved_keys(saved@).subrange(0, 0) =~= Seq::<Seq<char>>::empty());
    while s < saved.len()
        invariant
            n == live@.len(),
            keys == live_keys(live@),
            s <= saved@.len(),
            (seated@, rest@) == seat(keys, saved_keys(saved@).subrange(0, s as int)),
            forall|k: int| 0 <= k < rest@.len() ==> rest@[k] < n,
            any_ad_hoc == (exists|j: int| 0 <= j < s && saved@[j].kind == SpaceKind::AdHoc),
        decreases saved@.len() - s,
    {
        let ghost prefix = saved_keys(saved@).subrange(0, s as int);
        let ghost next = saved_keys(saved@).subrange(0, s + 1);
        assert(next.drop_last() =~= prefix);
        assert(next.last() == saved@[s as int].key@);
        let key = &saved[s].key;
        if saved[s].kind == SpaceKind::AdHoc {
            any_ad_hoc = true;
        }
        let mut k: usize = 0;
        let mut found: Option<usize> = None;
        while found.is_none() && k < rest.len()
            invariant
                n == live@.len(),
                keys == live_keys(live@),
                forall|j: int| 0 <= j < rest@.len() ==> rest@[j] < n,
                k <= rest@.len(),
                forall|j: int| 0 <= j < k ==> keys[rest@[j] as int] != key@,
                match found {
                    Some(f) => f == k && k < rest@.len() && keys[rest@[k as int] as int] == key@,
                    None => true,
                },
            decreases rest@.len() - k + (if found is None { 1int } else { 0int }),
        {
            assert(keys[rest@[k as int] as int] == live@[rest@[k as int] as int].key@);
            if live[rest[k]].key == *key {
                found = Some(k);
            } else {
                k = k + 1;
            }
        }
        match found {
            Some(j) => {
                proof {
                    lemma_first_match_found(keys, rest@, key@, j as int);
                }
                let index = rest.remove(j);
                seated.push(index);
            },
            None => {
                proof {
                    lemma_first_match_absent(keys, rest@, key@);
                }
            },
        }
        proof {
            assert(any_ad_hoc == (exists|j: int| 0 <= j < s + 1 && saved@[j].kind == SpaceKind::AdHoc)) by {
                if saved@[s as int].kind == SpaceKind::AdHoc {
                    assert(0 <= s < s + 1);
                }
            }
        }
        s = s + 1;
    }
    assert(saved_keys(saved@).subrange(0, saved@.len() as int) =~= saved_keys(saved@));
    assert(any_ad_hoc == saved_has_ad_hoc(saved@));
    let mut order: Vec<usize> = Vec::new();
    if !any_ad_hoc {
        let mut k: usize = 0;
        let mut found: Option<usize> = None;
        while found.is_none() && k < rest.len()
            invariant
                n == live@.len(),
                flags == live_ad_hoc(live@),
                forall|j: int| 0 <= j < rest@.len() ==> rest@[j] < n,
                k <= rest@.len(),
                forall|j: int| 0 <= j < k ==> !flags[rest@[j] as int],
                match found {
                    Some(f) => f == k && k < rest@.len() && flags[rest@[k as int] as int],
                    None => true,
                },
            decreases rest@.len() - k + (if found is None { 1int } else { 0int }),
        {
            assert(flags[rest@[k as int] as int] == live@[rest@[k as int] as int].ad_hoc);
            if live[rest[k]].ad_hoc {
                found = Some(k);
            } else {
                k = k + 1;
            }
        }
        match found {
            Some(j) => {
                proof {
                    lemma_first_ad_hoc_found(flags, rest@, j as int);
                }
                let ghost rest_before = rest@;
                let first = rest.remove(j);
                order.push(first);
                let mut t: usize = 0;
                while t < seated.len()
                    invariant
                        t <= seated@.len(),
                        order@ == seq![first] + seated@.subrange(0, t as int),
                    decreases seated@.len() - t,
                {
                    order.push(seated[t]);
                    assert(seated@.subrange(0, t + 1) =~= seated@.subrange(0, t as int).push(seated@[t as int]));
                    t = t + 1;
                }
                let mut t: usize = 0;
                let ghost mid = order@;
                assert(seated@.subrange(0, seated@.len() as int) =~= seated@);
                while t < rest.len()
                    invariant
                        t <= rest@.len(),
                        order@ == mid + rest@.subrange(0, t as int),
                    decreases rest@.len() - t,
                {
                    order.push(rest[t]);
                    assert(rest@.subrange(0, t + 1) =~= rest@.subrange(0, t as int).push(rest@[t as int]));
                    t = t + 1;
                }
                assert(rest@.subrange(0, rest@.len() as int) =~= rest@);
                assert(order@ =~= seq![rest_before[j as int]] + seated@ + rest@);
                return order;
            },
            None => {
                proof {
                    lemma_first_ad_hoc_absent(flags, rest@);
                }
            },
        }
    }
    order = seated;
    let mut t: usize = 0;
    let ghost mid = order@;
    while t < rest.len()
        invariant
            t <= rest@.len(),
            order@ == mid + rest@.subrange(0, t as int),
        decreases rest@.len() - t,
    {
        order.push(rest[t]);
        assert(rest@.subrange(0, t + 1) =~= rest@.subrange(0, t as int).push(rest@[t as int]));
        t = t + 1;
    }
    assert(rest@.subrange(0, rest@.len() as int) =~= rest@);
    order
}

/// Seating keeps every index exactly once: seated and unseated together are
/// a permutation of the spaces.
pub proof fn lemma_seat_keeps_every_space(keys: Seq<Seq<char>>, saved: Seq<Seq<char>>)
    ensures
        ({
            let (seated, rest) = seat(keys, saved);
            (seated + rest).to_multiset() == identity_order(keys.len()).to_multiset()
        }),
    decreases saved.len(),
{
    broadcast use vstd::seq_lib::group_to_multiset_ensures, vstd::multiset::group_multiset_axioms;
    if saved.len() > 0 {
        lemma_seat_keeps_every_space(keys, saved.drop_last());
        let (seated, rest) = seat(keys, saved.drop_last());
        match first_match(keys, rest, saved.last()) {
            Some(j) => {
                lemma_first_match_in_range(keys, rest, saved.last());
                vstd::seq_lib::lemma_multiset_commutative(seated, rest);
                vstd::seq_lib::lemma_multiset_commutative(seated.push(rest[j]), rest.remove(j));
                vstd::seq_lib::to_multiset_remove(rest, j);
                vstd::seq_lib::to_multiset_build(seated, rest[j]);
                assert(rest.to_multiset().count(rest[j]) > 0) by {
                    vstd::seq_lib::to_multiset_contains(rest, rest[j]);
                }
                assert(seated.push(rest[j]).to_multiset().add(rest.remove(j).to_multiset())
                    =~= seated.to_multiset().add(rest.to_multiset()));
            },
            None => {},
        }
    }
}

proof fn lemma_first_match_in_range(keys: Seq<Seq<char>>, remaining: Seq<usize>, key: Seq<char>)
    ensures
        match first_match(keys, remaining, key) {
            Some(j) => 0 <= j < remaining.len(),
            None => true,
        },
    decreases remaining.len(),
{
    if remaining.len() > 0 {
        lemma_first_match_in_range(keys, remaining.drop_first(), key);
    }
}

proof fn lemma_first_ad_hoc_in_range(flags: Seq<bool>, remaining: Seq<usize>)
    ensures
        match first_ad_hoc(flags, remaining) {
            Some(j) => 0 <= j < remaining.len(),
            None => true,
        },
    decreases remaining.len(),
{
    if remaining.len() > 0 {
        lemma_first_ad_hoc_in_range(flags, remaining.drop_first());
    }
}

/// Restoring never loses or duplicates a space: the start-up order is a
/// permutation of the recovered spaces.
pub proof fn lemma_restored_order_is_permutation(
    keys: Seq<Seq<char>>,
    ad_hoc: Seq<bool>,
    saved: Seq<Seq<char>>,
    saved_has_ad_hoc: bool,
)
    ensures
        restored_order(keys, ad_hoc, saved, saved_has_ad_hoc).to_multiset() == identity_order(
            keys.len(),
        ).to_multiset(),
{
    broadcast use vstd::seq_lib::group_to_multiset_ensures, vstd::multiset::group_multiset_axioms;
    if saved.len() > 0 {
        lemma_seat_keeps_every_space(keys, saved);
        let (seated, rest) = seat(keys, saved);
        match first_ad_hoc(ad_hoc, rest) {
            Some(j) if !saved_has_ad_hoc => {
                lemma_first_ad_hoc_in_range(ad_hoc, rest);
                vstd::seq_lib::lemma_multiset_commutative(seated, rest);
                vstd::seq_lib::lemma_multiset_commutative(seq![rest[j]] + seated, rest.remove(j));
                vstd::seq_lib::lemma_multiset_commutative(seq![rest[j]], seated);
                vstd::seq_lib::to_multiset_remove(rest, j);
                vstd::seq_lib::to_multiset_contains(rest, rest[j]);
                assert(seq![rest[j]].to_multiset() =~= vstd::multiset::Multiset::singleton(rest[j])) by {
                    vstd::seq_lib::to_multiset_build(Seq::<usize>::empty(), rest[j]);
                    assert(Seq::<usize>::empty().push(rest[j]) =~= seq![rest[j]]);
                    assert(Seq::<usize>::empty().to_multiset() =~= vstd::multiset::Multiset::empty());
                }
                assert((seq![rest[j]] + seated + rest.remove(j)).to_multiset() =~= (seated + rest).to_multiset());
            },
            _ => {},
        }
    }
}

} // verus!
