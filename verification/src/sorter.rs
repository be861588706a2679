//! The order a live list sort keeps while a row or tab is held.
//!
//! The model order is not changed until release: while a drag is active the
//! sorter owns a temporary order of keys, moves the held key through it as
//! the pointer crosses other rows, and hands back the final slot on drop.
//! Which slot the pointer is over is measured in window geometry by the
//! caller; everything here is about keys and indices.

use vstd::prelude::*;

verus! {

/// `j` is the first index of `key` in `order`.
pub open spec fn is_first(order: Seq<u64>, key: u64, j: int) -> bool {
    &&& 0 <= j < order.len()
    &&& order[j] == key
    &&& forall|k: int| 0 <= k < j ==> order[k] != key
}

/// The rank a key sorts by: its first index in `order`, or the largest
/// `usize` when the order does not know it.
pub open spec fn rank(order: Seq<u64>, key: u64) -> int {
    if exists|j: int| is_first(order, key, j) {
        choose|j: int| is_first(order, key, j)
    } else {
        usize::MAX as int
    }
}

/// There is only one first index.
pub proof fn lemma_first_is_unique(order: Seq<u64>, key: u64, j: int)
    requires
        is_first(order, key, j),
    ensures
        rank(order, key) == j,
{
    let c = choose|i: int| is_first(order, key, i);
    assert(is_first(order, key, c));
    if c < j {
        assert(order[c] != key);
    }
    if j < c {
        assert(order[j] != key);
    }
}

/// A key the order does not contain ranks last.
pub proof fn lemma_absent_ranks_last(order: Seq<u64>, key: u64)
    requires
        !order.contains(key),
    ensures
        rank(order, key) == usize::MAX as int,
{
    if exists|j: int| is_first(order, key, j) {
        let j = choose|j: int| is_first(order, key, j);
        assert(order[j] == key);
        assert(order.contains(key));
    }
}

/// The first index of `key` in `order`, if it occurs.
pub fn find_first(order: &Vec<u64>, key: u64) -> (found: Option<usize>)
    ensures
        match found {
            Some(j) => is_first(order@, key, j as int) && rank(order@, key) == j as int,
            None => !order@.contains(key) && rank(order@, key) == usize::MAX as int,
        },
{
    let mut i: usize = 0;
    while i < order.len()
        invariant
            i <= order@.len(),
            forall|k: int| 0 <= k < i ==> order@[k] != key,
        decreases order@.len() - i,
    {
        if order[i] == key {
            proof {
                lemma_first_is_unique(order@, key, i as int);
            }
            return Some(i);
        }
        i = i + 1;
    }
    proof {
        assert(!order@.contains(key)) by {
            if order@.contains(key) {
                let j = choose|j: int| 0 <= j < order@.len() && order@[j] == key;
                assert(order@[j] != key);
            }
        }
        lemma_absent_ranks_last(order@, key);
    }
    None
}

/// Index `i` occurs in `arranged`.
pub open spec fn listed(arranged: Seq<usize>, i: int) -> bool {
    arranged.contains(i as usize)
}

/// `(rank, index)` of `a` strictly before that of `b`.
pub open spec fn ranked_before(order: Seq<u64>, items: Seq<u64>, a: int, b: int) -> bool {
    let (ra, rb) = (rank(order, items[a]), rank(order, items[b]));
    ra < rb || (ra == rb && a < b)
}

/// `arranged` lists the indices of `items` in a stable sort by rank: every
/// index once, each by its rank and, within a rank, in the order given.
pub open spec fn is_stable_arrangement(order: Seq<u64>, items: Seq<u64>, arranged: Seq<usize>) -> bool {
    &&& forall|k: int| 0 <= k < arranged.len() ==> arranged[k] < items.len()
    &&& forall|i: int| 0 <= i < items.len() ==> #[trigger] listed(arranged, i)
    &&& forall|k: int, l: int|
        0 <= k < l < arranged.len() ==> ranked_before(order, items, arranged[k] as int, arranged[l] as int)
}

/// Appends, in ascending order, every index whose rank is `target`.
fn append_rank_group(ranks: &Vec<usize>, target: usize, arranged: &mut Vec<usize>)
    ensures
        final(arranged)@.subrange(0, old(arranged)@.len() as int) == old(arranged)@,
        old(arranged)@.len() <= final(arranged)@.len(),
        forall|k: int|
            old(arranged)@.len() <= k < final(arranged)@.len() ==> #[trigger] final(arranged)@[k]
                < ranks@.len() && ranks@[final(arranged)@[k] as int] == target,
        forall|k: int, l: int|
            old(arranged)@.len() <= k < l < final(arranged)@.len() ==> final(arranged)@[k]
                < final(arranged)@[l],
        forall|j: int| 0 <= j < ranks@.len() && ranks@[j] == target ==> #[trigger] listed(final(arranged)@, j),
{
    let ghost start = arranged@.len();
    let mut i: usize = 0;
    while i < ranks.len()
        invariant
            i <= ranks@.len(),
            start <= arranged@.len(),
            arranged@.subrange(0, start as int) == old(arranged)@,
            forall|k: int|
                start <= k < arranged@.len() ==> #[trigger] arranged@[k] < i && ranks@[arranged@[k] as int]
                    == target,
            forall|k: int, l: int| start <= k < l < arranged@.len() ==> arranged@[k] < arranged@[l],
            forall|j: int| 0 <= j < i && ranks@[j] == target ==> #[trigger] listed(arranged@, j),
        decreases ranks@.len() - i,
    {
        if ranks[i] == target {
            let ghost before = arranged@;
            arranged.push(i);
            proof {
                assert(arranged@.subrange(0, start as int) =~= before.subrange(0, start as int));
                assert forall|j: int| 0 <= j < i + 1 && ranks@[j] == target implies #[trigger] listed(
                    arranged@,
                    j,
                ) by {
                    if j < i {
                        assert(listed(before, j));
                        let w = choose|w: int| 0 <= w < before.len() && before[w] == j as usize;
                        assert(arranged@[w] == j as usize);
                    } else {
                        assert(arranged@[arranged@.len() - 1] == j as usize);
                    }
                }
            }
        }
        i = i + 1;
    }
}

/// The positions of `items` (by index) sorted stably by their rank in
/// `order`; keys that `order` does not know keep their order at the end.
pub fn stable_arrangement(order: &Vec<u64>, items: &Vec<u64>) -> (arranged: Vec<usize>)
    ensures
        is_stable_arrangement(order@, items@, arranged@),
{
    let mut ranks: Vec<usize> = Vec::new();
    let mut i: usize = 0;
    while i < items.len()
        invariant
            i <= items@.len(),
            ranks@.len() == i,
            forall|k: int| 0 <= k < i ==> ranks@[k] as int == rank(order@, items@[k]),
            forall|k: int| 0 <= k < i ==> ranks@[k] < order@.len() || ranks@[k] == usize::MAX,
        decreases items@.len() - i,
    {
        let r = match find_first(order, items[i]) {
            Some(j) => j,
            None => usize::MAX,
        };
        ranks.push(r);
        i = i + 1;
    }
    let n = items.len();
    let m = order.len();
    let mut arranged: Vec<usize> = Vec::new();
    // One group per slot of `order`, then the keys it does not know.
    let mut p: usize = 0;
    while p < m
        invariant
            n == items@.len(),
            m == order@.len(),
            p <= m,
            ranks@.len() == n,
            forall|k: int| 0 <= k < n ==> ranks@[k] as int == rank(order@, items@[k]),
            forall|k: int| 0 <= k < arranged@.len() ==> #[trigger] arranged@[k] < n && ranks@[arranged@[k] as int] < p,
            forall|j: int| 0 <= j < n && ranks@[j] < p ==> #[trigger] listed(arranged@, j),
            forall|k: int, l: int|
                0 <= k < l < arranged@.len() ==> ranked_before(
                    order@,
                    items@,
                    arranged@[k] as int,
                    arranged@[l] as int,
                ),
        decreases m - p,
    {
        let ghost before = arranged@;
        append_rank_group(&ranks, p, &mut arranged);
        proof {
            lemma_group_step(order@, items@, ranks@, before, arranged@, p as int);
            assert forall|j: int| 0 <= j < n && ranks@[j] < p + 1 implies #[trigger] listed(arranged@, j) by {
                if ranks@[j] < p {
                    assert(listed(before, j));
                    let w = choose|w: int| 0 <= w < before.len() && before[w] == j as usize;
                    assert(arranged@[w] == j as usize);
                }
            }
        }
        p = p + 1;
    }
    let ghost before = arranged@;
    append_rank_group(&ranks, usize::MAX, &mut arranged);
    proof {
        lemma_group_step(order@, items@, ranks@, before, arranged@, usize::MAX as int);
        assert forall|i: int| 0 <= i < items@.len() implies #[trigger] listed(arranged@, i) by {
            if ranks@[i] < m {
                assert(listed(before, i));
                let w = choose|w: int| 0 <= w < before.len() && before[w] == i as usize;
                assert(arranged@.subrange(0, before.len() as int)[w] == i as usize);
                assert(arranged@[w] == i as usize);
            }
        }
    }
    arranged
}

/// Appending one rank group, above every rank already placed, keeps the
/// arrangement sorted by `(rank, index)`.
proof fn lemma_group_step(
    order: Seq<u64>,
    items: Seq<u64>,
    ranks: Seq<usize>,
    before: Seq<usize>,
    after: Seq<usize>,
    p: int,
)
    requires
        ranks.len() == items.len(),
        forall|k: int| 0 <= k < items.len() ==> ranks[k] as int == rank(order, items[k]),
        forall|k: int| 0 <= k < before.len() ==> #[trigger] before[k] < items.len() && ranks[before[k] as int] < p,
        forall|k: int, l: int|
            0 <= k < l < before.len() ==> ranked_before(order, items, before[k] as int, before[l] as int),
        after.subrange(0, before.len() as int) == before,
        before.len() <= after.len(),
        forall|k: int|
            before.len() <= k < after.len() ==> #[trigger] after[k] < ranks.len() && ranks[after[k] as int]
                == p,
        forall|k: int, l: int| before.len() <= k < l < after.len() ==> after[k] < after[l],
    ensures
        forall|k: int| 0 <= k < after.len() ==> #[trigger] after[k] < items.len() && ranks[after[k] as int] <= p,
        forall|k: int, l: int|
            0 <= k < l < after.len() ==> ranked_before(order, items, after[k] as int, after[l] as int),
        forall|j: int| 0 <= j < before.len() ==> after[j] == before[j],
{
    assert forall|j: int| 0 <= j < before.len() implies after[j] == before[j] by {
        assert(after.subrange(0, before.len() as int)[j] == after[j]);
    }
    assert forall|k: int| 0 <= k < after.len() implies #[trigger] after[k] < items.len() && ranks[after[k] as int]
        <= p by {
        if k < before.len() {
            assert(after[k] == before[k]);
        }
    }
    assert forall|k: int, l: int| 0 <= k < l < after.len() implies ranked_before(
        order,
        items,
        after[k] as int,
        after[l] as int,
    ) by {
        if l < before.len() {
            assert(after[k] == before[k] && after[l] == before[l]);
        } else if k < before.len() {
            assert(after[k] == before[k]);
            assert(ranks[after[k] as int] < p);
        }
    }
}

/// The order of a held drag: the held key and the temporary key order.
pub struct DragOrder {
    item: u64,
    order: Vec<u64>,
}

/// What a drag order is, seen from outside.
pub struct DragOrderView {
    pub item: u64,
    pub order: Seq<u64>,
}

impl View for DragOrder {
    type V = DragOrderView;

    closed spec fn view(&self) -> DragOrderView {
        DragOrderView { item: self.item, order: self.order@ }
    }
}

/// The slot a move to `to` lands in: at most the last index.
pub open spec fn clamped(order: Seq<u64>, to: int) -> int {
    if to < order.len() - 1 {
        to
    } else {
        order.len() - 1
    }
}

impl DragOrder {
    /// The held key occurs in the order.
    #[verifier::type_invariant]
    closed spec fn holds_a_listed_key(&self) -> bool {
        self.order@.contains(self.item)
    }

    /// The held key occurs in the order (always true of a drag order).
    pub open spec fn wf(&self) -> bool {
        self@.order.contains(self@.item)
    }

    /// Starts holding `dragged` in `model_order`; refuses a key the list does
    /// not show.
    pub fn start(dragged: u64, model_order: Vec<u64>) -> (held: Option<DragOrder>)
        ensures
            match held {
                Some(h) => model_order@.contains(dragged) && h@.item == dragged && h@.order
                    == model_order@ && h.wf(),
                None => !model_order@.contains(dragged),
            },
    {
        match find_first(&model_order, dragged) {
            Some(j) => {
                assert(model_order@[j as int] == dragged);
                Some(DragOrder { item: dragged, order: model_order })
            },
            None => None,
        }
    }

    pub fn item(&self) -> (item: u64)
        ensures
            item == self@.item,
    {
        self.item
    }

    pub fn order(&self) -> (order: &Vec<u64>)
        ensures
            order@ == self@.order,
    {
        &self.order
    }

    /// Moves the held key to slot `to` (clamped to the last slot). Answers
    /// whether the order changed.
    pub fn reorder(&mut self, to: usize) -> (moved: bool)
        ensures
            final(self).wf(),
            final(self)@.item == old(self)@.item,
            ({
                let from = rank(old(self)@.order, old(self)@.item);
                let slot = clamped(old(self)@.order, to as int);
                &&& moved == (from != slot)
                &&& moved ==> final(self)@.order == old(self)@.order.remove(from).insert(
                    slot,
                    old(self)@.item,
                )
                &&& !moved ==> final(self)@.order == old(self)@.order
            }),
    {
        proof {
            use_type_invariant(&*self);
        }
        let from = match find_first(&self.order, self.item) {
            Some(j) => j,
            None => {
                return false;
            },
        };
        let last = self.order.len() - 1;
        let slot = if to < last {
            to
        } else {
            last
        };
        if from == slot {
            return false;
        }
        let mut order = self.order.clone();
        assert(order@ =~= self.order@);
        let item = order.remove(from);
        order.insert(slot, item);
        assert(order@[slot as int] == self.item);
        self.order = order;
        true
    }

    /// The held key and the slot it occupies now, for the caller to commit.
    pub fn destination(&self) -> (dest: (u64, usize))
        ensures
            dest.0 == self@.item,
            dest.1 as int == rank(self@.order, self@.item),
            self@.order[dest.1 as int] == self@.item,
    {
        proof {
            use_type_invariant(self);
        }
        match find_first(&self.order, self.item) {
            Some(j) => (self.item, j),
            None => (self.item, 0),
        }
    }
}

/// A move to an in-range slot puts the held key exactly there, and leaves
/// the other keys in their relative order.
pub proof fn lemma_reorder_lands_in_slot(before: Seq<u64>, item: u64, to: int)
    requires
        before.contains(item),
        0 <= to < before.len(),
    ensures
        ({
            let from = rank(before, item);
            let after = before.remove(from).insert(to, item);
            &&& after[to] == item
            &&& after.remove(to) == before.remove(from)
            &&& after.len() == before.len()
        }),
{
    let j = choose|j: int| 0 <= j < before.len() && before[j] == item;
    assert(exists|j: int| is_first(before, item, j)) by {
        lemma_has_first(before, item, j);
    }
    let from = rank(before, item);
    let after = before.remove(from).insert(to, item);
    assert(after.remove(to) =~= before.remove(from));
}

/// An occurrence of `key` means a first occurrence.
pub proof fn lemma_has_first(order: Seq<u64>, key: u64, j: int)
    requires
        0 <= j < order.len(),
        order[j] == key,
    ensures
        exists|f: int| is_first(order, key, f),
    decreases j,
{
    if exists|k: int| 0 <= k < j && order[k] == key {
        let k = choose|k: int| 0 <= k < j && order[k] == key;
        lemma_has_first(order, key, k);
    } else {
        assert(is_first(order, key, j));
    }
}

/// What the sorter knows between frames: nothing, or the held order.
pub struct ListOrder {
    held: Option<DragOrder>,
}

impl ListOrder {
    pub closed spec fn held_view(&self) -> Option<DragOrderView> {
        match self.held {
            Some(h) => Some(h@),
            None => None,
        }
    }

    /// No drag in progress.
    pub fn new() -> (sorter: ListOrder)
        ensures
            sorter.held_view() == None::<DragOrderView>,
    {
        ListOrder { held: None }
    }

    pub fn is_dragging(&self) -> (dragging: bool)
        ensures
            dragging == self.held_view().is_some(),
    {
        self.held.is_some()
    }

    /// Whether `item` is the key being held.
    pub fn holds(&self, item: u64) -> (held: bool)
        ensures
            held == (match self.held_view() {
                Some(h) => h.item == item,
                None => false,
            }),
    {
        match &self.held {
            Some(h) => h.item == item,
            None => false,
        }
    }

    /// The order side of a drag move of `dragged` over the list whose model
    /// order is `model_order`.
    /// The first event starts the hold (when the list shows that key); a
    /// drag of another key while one is held is ignored.
    pub fn drag_move(&mut self, dragged: u64, model_order: Vec<u64>) -> (accepted: bool)
        ensures
            match old(self).held_view() {
                None => {
                    &&& accepted == model_order@.contains(dragged)
                    &&& accepted ==> final(self).held_view() == Some(
                        DragOrderView { item: dragged, order: model_order@ },
                    )
                    &&& !accepted ==> final(self).held_view() == None::<DragOrderView>
                },
                Some(h) => accepted == (h.item == dragged) && final(self).held_view()
                    == old(self).held_view(),
            },
    {
        match &self.held {
            Some(h) => h.item == dragged,
            None => {
                match DragOrder::start(dragged, model_order) {
                    Some(h) => {
                        self.held = Some(h);
                        true
                    },
                    None => false,
                }
            },
        }
    }

    /// Moves the held key to the slot the pointer crossed into.
    pub fn reorder_held(&mut self, to: usize) -> (moved: bool)
        ensures
            match old(self).held_view() {
                None => !moved && final(self).held_view() == old(self).held_view(),
                Some(h) => {
                    let from = rank(h.order, h.item);
                    let slot = clamped(h.order, to as int);
                    &&& moved == (from != slot)
                    &&& final(self).held_view() == Some(
                        DragOrderView {
                            item: h.item,
                            order: if moved {
                                h.order.remove(from).insert(slot, h.item)
                            } else {
                                h.order
                            },
                        },
                    )
                },
            },
    {
        match self.held.take() {
            Some(mut h) => {
                let moved = h.reorder(to);
                self.held = Some(h);
                moved
            },
            None => false,
        }
    }

    /// Release: settle on the nearest slot (when the caller measured one)
    /// and answer the key and slot to commit.
    pub fn drop_at(&mut self, nearest: Option<usize>) -> (dest: Option<(u64, usize)>)
        ensures
            match old(self).held_view() {
                None => dest.is_none() && final(self).held_view() == old(self).held_view(),
                Some(h) => {
                    let order = match nearest {
                        Some(to) => {
                            let from = rank(h.order, h.item);
                            let slot = clamped(h.order, to as int);
                            if from != slot {
                                h.order.remove(from).insert(slot, h.item)
                            } else {
                                h.order
                            }
                        },
                        None => h.order,
                    };
                    &&& final(self).held_view() == Some(DragOrderView { item: h.item, order })
                    &&& dest == Some((h.item, rank(order, h.item) as usize))
                },
            },
    {
        if self.held.is_none() {
            return None;
        }
        if let Some(to) = nearest {
            self.reorder_held(to);
        }
        match &self.held {
            Some(h) => {
                let (item, slot) = h.destination();
                Some((item, slot))
            },
            None => None,
        }
    }

    /// Ends the hold: after a committed drop, or when the drag is cancelled or
    /// leaves the list (the model order is then shown again).
    pub fn cancel(&mut self)
        ensures
            final(self).held_view() == None::<DragOrderView>,
    {
        self.held = None;
    }

    /// Puts `items` (by their keys) in the held order for painting: the
    /// identity while nothing is held.
    pub fn arrange(&self, keys: &Vec<u64>) -> (arranged: Vec<usize>)
        ensures
            match self.held_view() {
                Some(h) => is_stable_arrangement(h.order, keys@, arranged@),
                None => arranged@.len() == keys@.len() && forall|k: int|
                    0 <= k < keys@.len() ==> arranged@[k] == k,
            },
    {
        match &self.held {
            Some(h) => stable_arrangement(&h.order, keys),
            None => {
                let mut identity: Vec<usize> = Vec::new();
                let mut k: usize = 0;
                while k < keys.len()
                    invariant
                        k <= keys@.len(),
                        identity@.len() == k,
                        forall|j: int| 0 <= j < k ==> identity@[j] == j,
                    decreases keys@.len() - k,
                {
                    identity.push(k);
                    k = k + 1;
                }
                identity
            },
        }
    }
}

} // verus!
