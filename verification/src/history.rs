//! In-memory clipboard history: newest item first, capped at [`MAX_ITEMS`].
use std::collections::VecDeque;
use vstd::prelude::*;

use crate::item::{ClipboardItem, ItemKind};
use crate::panel::unix_now;

verus! {

broadcast use vstd::std_specs::vecdeque::group_vec_dequeue_axioms;

pub const MAX_ITEMS: usize = 40;

/// Whether the entry holds the text `t`.
pub open spec fn holds_text(it: ClipboardItem, t: Seq<char>) -> bool {
    it.kind matches ItemKind::Text(s) && s@ == t
}

/// Whether the entry is an image with content hash `h`.
pub open spec fn holds_image(it: ClipboardItem, h: u64) -> bool {
    it.kind matches ItemKind::Image { hash, .. } && hash == h
}

/// `i` is the first position of `s` whose entry has the id `id`.
pub open spec fn first_with_id(s: Seq<ClipboardItem>, id: u64, i: int) -> bool {
    &&& 0 <= i < s.len()
    &&& s[i].id == id
    &&& forall|j: int| 0 <= j < i ==> (#[trigger] s[j]).id != id
}

/// `i` is the first position of `s` whose entry holds the text `t`.
pub open spec fn first_with_text(s: Seq<ClipboardItem>, t: Seq<char>, i: int) -> bool {
    &&& 0 <= i < s.len()
    &&& holds_text(s[i], t)
    &&& forall|j: int| 0 <= j < i ==> !holds_text(#[trigger] s[j], t)
}

/// `i` is the first position of `s` whose entry is an image with hash `h`.
pub open spec fn first_with_image(s: Seq<ClipboardItem>, h: u64, i: int) -> bool {
    &&& 0 <= i < s.len()
    &&& holds_image(s[i], h)
    &&& forall|j: int| 0 <= j < i ==> !holds_image(#[trigger] s[j], h)
}

pub open spec fn has_id(s: Seq<ClipboardItem>, id: u64) -> bool {
    exists|i: int| 0 <= i < s.len() && (#[trigger] s[i]).id == id
}

/// One more than the largest id in `s`, and at least 1: the id that the
/// next inserted entry gets.
pub open spec fn id_after(s: Seq<ClipboardItem>) -> nat
    decreases s.len(),
{
    if s.len() == 0 {
        1
    } else {
        let rest = id_after(s.drop_last());
        let own = s.last().id + 1;
        if rest >= own {
            rest
        } else {
            own as nat
        }
    }
}

/// The entry `it` stamped with the time `now`.
pub open spec fn stamped(it: ClipboardItem, now: u64) -> ClipboardItem {
    ClipboardItem { copied_at: now, ..it }
}

/// What promoting the entry at `pos` to the front leaves: the entry at the
/// front is unchanged, any other moves to the front stamped with `now`.
pub open spec fn promoted(s: Seq<ClipboardItem>, pos: int, now: u64) -> Seq<ClipboardItem> {
    if pos == 0 {
        s
    } else {
        seq![stamped(s[pos], now)] + s.remove(pos)
    }
}

/// The first `MAX_ITEMS` entries of `s`.
pub open spec fn capped(s: Seq<ClipboardItem>) -> Seq<ClipboardItem> {
    if s.len() <= MAX_ITEMS {
        s
    } else {
        s.take(MAX_ITEMS as int)
    }
}

/// What the cap drops from `s`, the last entry first.
pub open spec fn overflow(s: Seq<ClipboardItem>) -> Seq<ClipboardItem> {
    if s.len() <= MAX_ITEMS {
        Seq::empty()
    } else {
        s.skip(MAX_ITEMS as int).reverse()
    }
}

/// The entries whose id is in `ids`, in history order.
pub open spec fn with_ids(s: Seq<ClipboardItem>, ids: Seq<u64>) -> Seq<ClipboardItem> {
    s.filter(|it: ClipboardItem| ids.contains(it.id))
}

/// The entries whose id is not in `ids`, in history order.
pub open spec fn without_ids(s: Seq<ClipboardItem>, ids: Seq<u64>) -> Seq<ClipboardItem> {
    s.filter(|it: ClipboardItem| !ids.contains(it.id))
}

/// Whether `id` occurs in `ids`.
fn contains_id(ids: &[u64], id: u64) -> (r: bool)
    ensures
        r == ids@.contains(id),
{
    let mut i: usize = 0;
    while i < ids.len()
        invariant
            i <= ids@.len(),
            forall|j: int| 0 <= j < i ==> ids@[j] != id,
        decreases ids@.len() - i,
    {
        if ids[i] == id {
            assert(ids@[i as int] == id);
            return true;
        }
        i += 1;
    }
    false
}

/// Every id in `s` lies below `id_after(s)`, which is at least 1.
pub proof fn lemma_id_after_bounds(s: Seq<ClipboardItem>)
    ensures
        id_after(s) >= 1,
        forall|i: int| 0 <= i < s.len() ==> (#[trigger] s[i]).id < id_after(s),
    decreases s.len(),
{
    if s.len() > 0 {
        lemma_id_after_bounds(s.drop_last());
        assert forall|i: int| 0 <= i < s.len() implies (#[trigger] s[i]).id < id_after(s) by {
            if i < s.len() - 1 {
                assert(s[i] == s.drop_last()[i]);
            }
        }
    }
}

/// No two entries of `s` share an id.
pub open spec fn unique_ids(s: Seq<ClipboardItem>) -> bool {
    forall|i: int, j: int| 0 <= i < j < s.len() ==> #[trigger] s[i].id != #[trigger] s[j].id
}

/// Capping loses nothing: what the cap keeps, followed by what it evicts
/// (reported last entry first), is the whole sequence.
pub proof fn lemma_cap_loses_nothing(full: Seq<ClipboardItem>)
    ensures
        capped(full).len() <= MAX_ITEMS,
        capped(full) + overflow(full).reverse() == full,
{
    if full.len() > MAX_ITEMS {
        assert(full.skip(MAX_ITEMS as int).reverse().reverse() =~= full.skip(MAX_ITEMS as int));
        assert(full.take(MAX_ITEMS as int) + full.skip(MAX_ITEMS as int) =~= full);
    } else {
        assert(Seq::<ClipboardItem>::empty().reverse() =~= Seq::<ClipboardItem>::empty());
        assert(full + Seq::<ClipboardItem>::empty() =~= full);
    }
}

/// A new entry's id is fresh and stays findable: in a history whose ids
/// are unique and below `fresh`, inserting an entry with the id `fresh`
/// keeps ids unique, and a lookup of `fresh` finds the new entry first.
pub proof fn lemma_insert_keeps_ids_unique(
    s: Seq<ClipboardItem>,
    fresh: u64,
    kind: ItemKind,
    now: u64,
)
    requires
        unique_ids(s),
        forall|i: int| 0 <= i < s.len() ==> (#[trigger] s[i]).id < fresh,
    ensures
        !has_id(s, fresh),
        unique_ids(capped(seq![(ClipboardItem { id: fresh, kind: kind, copied_at: now })] + s)),
        first_with_id(
            capped(seq![(ClipboardItem { id: fresh, kind: kind, copied_at: now })] + s),
            fresh,
            0,
        ),
{
    let full = seq![(ClipboardItem { id: fresh, kind: kind, copied_at: now })] + s;
    let r = capped(full);
    assert forall|k: int| 0 <= k < r.len() implies (#[trigger] r[k]) == full[k] by {}
    assert forall|a: int, b: int| 0 <= a < b < r.len() implies #[trigger] r[a].id
        != #[trigger] r[b].id by {
        assert(r[a] == full[a] && r[b] == full[b]);
        if a == 0 {
            assert(full[b] == s[b - 1]);
        } else {
            assert(full[a] == s[a - 1] && full[b] == s[b - 1]);
        }
    }
    assert(r[0] == full[0]);
}

/// Promoting keeps the entries and makes the promoted one found first: the
/// result has the same length, its front entry is the one that was at
/// `pos` (same id and content), and unique ids stay unique.
pub proof fn lemma_promote_keeps_entries(s: Seq<ClipboardItem>, pos: int, now: u64)
    requires
        0 <= pos < s.len(),
    ensures
        promoted(s, pos, now).len() == s.len(),
        promoted(s, pos, now)[0].id == s[pos].id,
        promoted(s, pos, now)[0].kind == s[pos].kind,
        first_with_id(promoted(s, pos, now), s[pos].id, 0),
        unique_ids(s) ==> unique_ids(promoted(s, pos, now)),
{
    let r = promoted(s, pos, now);
    if pos > 0 {
        assert forall|k: int| 0 < k < s.len() implies (#[trigger] r[k]) == (if k - 1 < pos {
            s[k - 1]
        } else {
            s[k]
        }) by {
            assert(r[k] == s.remove(pos)[k - 1]);
        }
        if unique_ids(s) {
            assert forall|a: int, b: int| 0 <= a < b < r.len() implies #[trigger] r[a].id
                != #[trigger] r[b].id by {
                let ma = if a == 0 {
                    pos
                } else if a - 1 < pos {
                    a - 1
                } else {
                    a
                };
                let mb = if b - 1 < pos {
                    b - 1
                } else {
                    b
                };
                assert(r[a].id == s[ma].id);
                assert(r[b].id == s[mb].id);
                if ma < mb {
                    assert(s[ma].id != s[mb].id);
                } else {
                    assert(s[mb].id != s[ma].id);
                }
            }
        }
    }
}

/// There is only one first position with a given id.
pub proof fn lemma_first_unique_id(s: Seq<ClipboardItem>, id: u64, i: int, j: int)
    requires
        first_with_id(s, id, i),
        first_with_id(s, id, j),
    ensures
        i == j,
{
    if i < j {
        assert(s[i].id != id);
    } else if j < i {
        assert(s[j].id != id);
    }
}


/// One operation on a history, as the model of the id law sees it.
pub enum HistoryOp {
    /// `insert_front` of this kind at this time.
    Insert(ItemKind, u64),
    /// `promote` of this id at this time.
    Promote(u64, u64),
    /// `clear`.
    Clear,
}

/// A history's entries and the id its next entry gets.
pub struct HistoryModel {
    pub items: Seq<ClipboardItem>,
    pub fresh: nat,
}

/// The model of a history built by `from_items(v)`.
pub open spec fn start(v: Seq<ClipboardItem>) -> HistoryModel {
    HistoryModel { items: capped(v), fresh: id_after(v) }
}

/// The model after one operation, as the operation's contract states it.
pub open spec fn apply(m: HistoryModel, op: HistoryOp) -> HistoryModel {
    match op {
        HistoryOp::Insert(kind, now) => HistoryModel {
            items: capped(
                seq![(ClipboardItem { id: m.fresh as u64, kind: kind, copied_at: now })] + m.items,
            ),
            fresh: m.fresh + 1,
        },
        HistoryOp::Promote(id, now) => HistoryModel {
            items: if has_id(m.items, id) {
                promoted(m.items, choose|p: int| first_with_id(m.items, id, p), now)
            } else {
                m.items
            },
            fresh: m.fresh,
        },
        HistoryOp::Clear => HistoryModel { items: Seq::empty(), fresh: m.fresh },
    }
}

/// The model after a sequence of operations.
pub open spec fn run(m: HistoryModel, ops: Seq<HistoryOp>) -> HistoryModel
    decreases ops.len(),
{
    if ops.len() == 0 {
        m
    } else {
        apply(run(m, ops.drop_last()), ops.last())
    }
}

/// The ids that the inserts among `ops` hand out, in order.
pub open spec fn issued(m: HistoryModel, ops: Seq<HistoryOp>) -> Seq<u64>
    decreases ops.len(),
{
    if ops.len() == 0 {
        Seq::empty()
    } else {
        issued(m, ops.drop_last()) + match ops.last() {
            HistoryOp::Insert(..) => seq![run(m, ops.drop_last()).fresh as u64],
            _ => Seq::empty(),
        }
    }
}

proof fn lemma_promoted_ids_below(s: Seq<ClipboardItem>, pos: int, now: u64, bound: nat)
    requires
        0 <= pos < s.len(),
        forall|i: int| 0 <= i < s.len() ==> (#[trigger] s[i]).id < bound,
    ensures
        forall|k: int|
            0 <= k < promoted(s, pos, now).len() ==> (#[trigger] promoted(s, pos, now)[k]).id
                < bound,
{
    let r = promoted(s, pos, now);
    if pos > 0 {
        assert forall|k: int| 0 <= k < r.len() implies (#[trigger] r[k]).id < bound by {
            if k > 0 {
                assert(r[k] == s.remove(pos)[k - 1]);
                if k - 1 < pos {
                    assert(s.remove(pos)[k - 1] == s[k - 1]);
                } else {
                    assert(s.remove(pos)[k - 1] == s[k]);
                }
            } else {
                assert(r[0].id == s[pos].id);
            }
        }
    }
}

proof fn lemma_run_invariant(v: Seq<ClipboardItem>, ops: Seq<HistoryOp>)
    requires
        id_after(v) + issued(start(v), ops).len() <= u64::MAX,
    ensures
        run(start(v), ops).fresh == id_after(v) + issued(start(v), ops).len(),
        run(start(v), ops).items.len() <= MAX_ITEMS,
        forall|i: int|
            0 <= i < run(start(v), ops).items.len() ==> (#[trigger] run(start(v), ops).items[i]).id
                < run(start(v), ops).fresh,
        forall|k: int|
            0 <= k < issued(start(v), ops).len() ==> #[trigger] issued(start(v), ops)[k] == id_after(
                v,
            ) + k,
        unique_ids(capped(v)) ==> unique_ids(run(start(v), ops).items),
    decreases ops.len(),
{
    let m0 = start(v);
    if ops.len() == 0 {
        lemma_id_after_bounds(v);
        assert forall|i: int| 0 <= i < capped(v).len() implies (#[trigger] capped(v)[i]).id
            < id_after(v) by {
            assert(capped(v)[i] == v[i]);
        }
    } else {
        let init = ops.drop_last();
        let op = ops.last();
        assert(issued(m0, init).len() <= issued(m0, ops).len());
        lemma_run_invariant(v, init);
        let m = run(m0, init);
        let ids = issued(m0, ops);
        match op {
            HistoryOp::Insert(kind, now) => {
                let full = seq![(ClipboardItem { id: m.fresh as u64, kind: kind, copied_at: now })]
                    + m.items;
                let r = capped(full);
                assert forall|i: int| 0 <= i < r.len() implies (#[trigger] r[i]).id < m.fresh
                    + 1 by {
                    assert(r[i] == full[i]);
                    if i > 0 {
                        assert(full[i] == m.items[i - 1]);
                    }
                }
                assert forall|k: int| 0 <= k < ids.len() implies #[trigger] ids[k] == id_after(v)
                    + k by {
                    if k < ids.len() - 1 {
                        assert(ids[k] == issued(m0, init)[k]);
                    }
                }
                if unique_ids(capped(v)) {
                    lemma_insert_keeps_ids_unique(m.items, m.fresh as u64, kind, now);
                }
            },
            HistoryOp::Promote(id, now) => {
                assert(ids =~= issued(m0, init));
                if has_id(m.items, id) {
                    let p = choose|p: int| first_with_id(m.items, id, p);
                    let i = choose|i: int| 0 <= i < m.items.len() && (#[trigger] m.items[i]).id
                        == id;
                    lemma_exists_first_id(m.items, id, i);
                    lemma_promoted_ids_below(m.items, p, now, m.fresh);
                    lemma_promote_keeps_entries(m.items, p, now);
                }
            },
            HistoryOp::Clear => {
                assert(ids =~= issued(m0, init));
            },
        }
    }
}

proof fn lemma_exists_first_id(s: Seq<ClipboardItem>, id: u64, j: int)
    requires
        0 <= j < s.len(),
        s[j].id == id,
    ensures
        exists|p: int| first_with_id(s, id, p),
    decreases j,
{
    if exists|k: int| 0 <= k < j && (#[trigger] s[k]).id == id {
        let k = choose|k: int| 0 <= k < j && (#[trigger] s[k]).id == id;
        lemma_exists_first_id(s, id, k);
    } else {
        assert(first_with_id(s, id, j));
    }
}

/// Ids are never reused. Start from `from_items(v)` and apply any sequence
/// of inserts, promotions and clears: the `k`-th insert hands out the id
/// one past the largest of the stored ids and of the ids handed out before
/// it (1 when there is none), so it differs from every id in `v`, the
/// truncated ones included, and from every id handed out earlier, even
/// after a clear; every entry's id stays below the next id, and when the
/// kept entries of `v` have unique ids, the entries' ids stay pairwise
/// distinct. (The bound only says that the ids never run past `u64::MAX`.)
pub proof fn lemma_ids_never_reused(v: Seq<ClipboardItem>, ops: Seq<HistoryOp>)
    requires
        id_after(v) + issued(start(v), ops).len() <= u64::MAX,
    ensures
        forall|k: int|
            0 <= k < issued(start(v), ops).len() ==> #[trigger] issued(start(v), ops)[k] == id_after(
                v,
            ) + k,
        forall|k: int, i: int|
            0 <= k < issued(start(v), ops).len() && 0 <= i < v.len() ==> #[trigger] issued(
                start(v),
                ops,
            )[k] != #[trigger] v[i].id,
        forall|j: int, k: int|
            0 <= j < k < issued(start(v), ops).len() ==> #[trigger] issued(start(v), ops)[j]
                < #[trigger] issued(start(v), ops)[k],
        run(start(v), ops).fresh == id_after(v) + issued(start(v), ops).len(),
        forall|i: int|
            0 <= i < run(start(v), ops).items.len() ==> (#[trigger] run(start(v), ops).items[i]).id
                < run(start(v), ops).fresh,
        unique_ids(capped(v)) ==> unique_ids(run(start(v), ops).items),
{
    lemma_run_invariant(v, ops);
    lemma_id_after_bounds(v);
    let ids = issued(start(v), ops);
    assert forall|k: int, i: int| 0 <= k < ids.len() && 0 <= i < v.len() implies #[trigger] ids[k]
        != #[trigger] v[i].id by {
        assert(ids[k] == id_after(v) + k);
        assert(v[i].id < id_after(v));
    }
    assert forall|j: int, k: int| 0 <= j < k < ids.len() implies #[trigger] ids[j]
        < #[trigger] ids[k] by {
        assert(ids[j] == id_after(v) + j);
        assert(ids[k] == id_after(v) + k);
    }
}

/// In-memory clipboard history: newest item at the front, capped at
/// [`MAX_ITEMS`]. Re-copied duplicates are promoted to the front instead
/// of being stored twice.
pub struct History {
    items: VecDeque<ClipboardItem>,
    next_id: u64,
}

impl View for History {
    type V = Seq<ClipboardItem>;

    closed spec fn view(&self) -> Seq<ClipboardItem> {
        self.items@
    }
}

impl History {
    /// The id that the next inserted entry gets.
    pub closed spec fn fresh_id(&self) -> nat {
        self.next_id as nat
    }

    /// The history as the model of the id law sees it.
    pub open spec fn model(&self) -> HistoryModel {
        HistoryModel { items: self@, fresh: self.fresh_id() }
    }

    /// The history's invariant: at most [`MAX_ITEMS`] entries, all with ids
    /// below the next fresh id.
    pub open spec fn wf(&self) -> bool {
        &&& self@.len() <= MAX_ITEMS
        &&& forall|i: int| 0 <= i < self@.len() ==> (#[trigger] self@[i]).id < self.fresh_id()
    }

    /// Builds a history from stored items (newest first): keeps the first
    /// [`MAX_ITEMS`] of them and continues numbering after the largest id.
    pub fn from_items(items: Vec<ClipboardItem>) -> (r: Self)
        requires
            forall|i: int| 0 <= i < items@.len() ==> (#[trigger] items@[i]).id < u64::MAX,
        ensures
            r.wf(),
            r@ == capped(items@),
            r.fresh_id() == id_after(items@),
            r.model() == start(items@),
    {
        let ghost orig = items@;
        let mut next_id: u64 = 1;
        let mut i: usize = 0;
        while i < items.len()
            invariant
                i <= items@.len(),
                forall|k: int| 0 <= k < items@.len() ==> (#[trigger] items@[k]).id < u64::MAX,
                next_id == id_after(items@.take(i as int)),
            decreases items@.len() - i,
        {
            assert(items@.take(i + 1).drop_last() =~= items@.take(i as int));
            if items[i].id + 1 > next_id {
                next_id = items[i].id + 1;
            }
            i += 1;
        }
        assert(items@.take(i as int) =~= items@);
        proof {
            lemma_id_after_bounds(items@);
        }
        let ghost kept = capped(items@);
        let mut items = items;
        items.truncate(MAX_ITEMS);
        assert(items@ =~= kept);
        let mut deque: VecDeque<ClipboardItem> = VecDeque::new();
        while items.len() > 0
            invariant
                kept.len() <= MAX_ITEMS,
                items@.len() + deque@.len() == kept.len(),
                items@ == kept.take(items@.len() as int),
                deque@ == kept.skip(items@.len() as int),
            decreases items@.len(),
        {
            if let Some(it) = items.pop() {
                deque.push_front(it);
            }
            assert(deque@ =~= kept.skip(items@.len() as int));
            assert(items@ =~= kept.take(items@.len() as int));
        }
        assert(deque@ =~= kept);
        let r = History { items: deque, next_id };
        assert forall|k: int| 0 <= k < r@.len() implies (#[trigger] r@[k]).id < r.fresh_id() by {
            assert(r@[k] == orig[k]);
        }
        r
    }

    /// The items, newest first.
    pub fn items(&self) -> (r: std::collections::vec_deque::Iter<'_, ClipboardItem>)
        ensures
            vstd::std_specs::iter::IteratorSpec::decrease(&r) is Some,
            vstd::std_specs::iter::IteratorSpec::initial_value_relation(&r, &r),
            vstd::std_specs::iter::IteratorSpec::remaining(&r).len() == self@.len(),
            forall|i: int|
                0 <= i < self@.len() ==> *(#[trigger] vstd::std_specs::iter::IteratorSpec::remaining(
                    &r,
                )[i]) == self@[i],
    {
        self.items.iter()
    }

    /// A copy of the items, newest first.
    pub fn to_vec(&self) -> (r: Vec<ClipboardItem>)
        ensures
            r@ == self@,
    {
        let mut out: Vec<ClipboardItem> = Vec::new();
        let mut i: usize = 0;
        while i < self.items.len()
            invariant
                i <= self.items@.len(),
                out@ == self.items@.take(i as int),
            decreases self.items@.len() - i,
        {
            out.push(self.items[i].duplicate());
            i += 1;
            assert(out@ =~= self.items@.take(i as int));
        }
        assert(self.items@.take(i as int) =~= self.items@);
        out
    }

    /// The number of items.
    pub fn len(&self) -> (r: usize)
        ensures
            r == self@.len(),
    {
        self.items.len()
    }

    /// Whether the history holds no item.
    pub fn is_empty(&self) -> (r: bool)
        ensures
            r == (self@.len() == 0),
    {
        self.items.len() == 0
    }

    /// The id that the next inserted item gets.
    pub fn next_id(&self) -> (r: u64)
        ensures
            r == self.fresh_id(),
    {
        self.next_id
    }

    /// The first item with the id `id`.
    pub fn get(&self, id: u64) -> (r: Option<&ClipboardItem>)
        ensures
            match r {
                Some(it) => exists|i: int| first_with_id(self@, id, i) && *it == self@[i],
                None => !has_id(self@, id),
            },
    {
        let mut i: usize = 0;
        while i < self.items.len()
            invariant
                i <= self.items@.len(),
                forall|j: int| 0 <= j < i ==> (#[trigger] self.items@[j]).id != id,
            decreases self.items@.len() - i,
        {
            if self.items[i].id == id {
                assert(first_with_id(self@, id, i as int));
                return Some(&self.items[i]);
            }
            i += 1;
        }
        None
    }

    /// The id of the first text item holding exactly `text`.
    pub fn find_text(&self, text: &str) -> (r: Option<u64>)
        ensures
            match r {
                Some(id) => exists|i: int| first_with_text(self@, text@, i) && self@[i].id == id,
                None => forall|i: int| 0 <= i < self@.len() ==> !holds_text(#[trigger] self@[i], text@),
            },
    {
        let wanted: String = text.to_owned();
        let mut i: usize = 0;
        while i < self.items.len()
            invariant
                i <= self.items@.len(),
                wanted@ == text@,
                forall|j: int| 0 <= j < i ==> !holds_text(#[trigger] self.items@[j], text@),
            decreases self.items@.len() - i,
        {
            match &self.items[i].kind {
                ItemKind::Text(t) => {
                    if *t == wanted {
                        assert(first_with_text(self@, text@, i as int));
                        return Some(self.items[i].id);
                    }
                },
                ItemKind::Image { .. } => {},
            }
            i += 1;
        }
        None
    }

    /// The id of the first image item whose content hash is `hash`.
    pub fn find_image(&self, hash: u64) -> (r: Option<u64>)
        ensures
            match r {
                Some(id) => exists|i: int| first_with_image(self@, hash, i) && self@[i].id == id,
                None => forall|i: int| 0 <= i < self@.len() ==> !holds_image(#[trigger] self@[i], hash),
            },
    {
        let mut i: usize = 0;
        while i < self.items.len()
            invariant
                i <= self.items@.len(),
                forall|j: int| 0 <= j < i ==> !holds_image(#[trigger] self.items@[j], hash),
            decreases self.items@.len() - i,
        {
            match &self.items[i].kind {
                ItemKind::Image { hash: h, .. } => {
                    if *h == hash {
                        assert(first_with_image(self@, hash, i as int));
                        return Some(self.items[i].id);
                    }
                },
                ItemKind::Text(_) => {},
            }
            i += 1;
        }
        None
    }

    /// Moves the first item with the id `id` to the front, stamped with
    /// `now` unless it already was the front. Returns false if the id is
    /// unknown, and then changes nothing.
    pub fn promote_at(&mut self, id: u64, now: u64) -> (found: bool)
        requires
            old(self).wf(),
        ensures
            final(self).wf(),
            final(self).fresh_id() == old(self).fresh_id(),
            found == has_id(old(self)@, id),
            found ==> exists|pos: int|
                first_with_id(old(self)@, id, pos) && final(self)@ == promoted(old(self)@, pos, now),
            !found ==> final(self)@ == old(self)@,
            final(self).model() == apply(old(self).model(), HistoryOp::Promote(id, now)),
    {
        let mut i: usize = 0;
        while i < self.items.len() && self.items[i].id != id
            invariant
                i <= self.items@.len(),
                self@ == old(self)@,
                self.next_id == old(self).next_id,
                forall|j: int| 0 <= j < i ==> (#[trigger] self.items@[j]).id != id,
            decreases self.items@.len() - i,
        {
            i += 1;
        }
        if i == self.items.len() {
            return false;
        }
        assert(first_with_id(old(self)@, id, i as int));
        proof {
            let p = choose|p: int| first_with_id(old(self)@, id, p);
            lemma_first_unique_id(old(self)@, id, i as int, p);
        }
        if i == 0 {
            return true;
        }
        let ghost before = self.items@;
        if let Some(item) = self.items.remove(i) {
            let item = ClipboardItem { copied_at: now, ..item };
            self.items.push_front(item);
        }
        assert(self.items@ =~= promoted(before, i as int, now));
        assert forall|k: int| 0 <= k < self@.len() implies (#[trigger] self@[k]).id < self.fresh_id() by {
            if k == 0 {
                assert(self@[0].id == before[i as int].id);
            } else if k - 1 < i {
                assert(self@[k] == before[k - 1]);
            } else {
                assert(self@[k] == before[k]);
            }
        }
        true
    }

    /// Moves an existing item to the front, stamped with the current time.
    /// Returns false if the id is unknown.
    pub fn promote(&mut self, id: u64) -> (found: bool)
        requires
            old(self).wf(),
        ensures
            final(self).wf(),
            final(self).fresh_id() == old(self).fresh_id(),
            found == has_id(old(self)@, id),
            found ==> exists|pos: int, now: u64|
                first_with_id(old(self)@, id, pos) && final(self)@ == promoted(old(self)@, pos, now),
            !found ==> final(self)@ == old(self)@,
            exists|now: u64|
                final(self).model() == apply(old(self).model(), HistoryOp::Promote(id, now)),
    {
        let now = unix_now();
        self.promote_at(id, now)
    }

    /// Inserts a new item at the front, stamped with the current time.
    /// Returns its id and the items evicted by the [`MAX_ITEMS`] cap.
    pub fn insert_front(&mut self, kind: ItemKind) -> (r: (u64, Vec<ClipboardItem>))
        requires
            old(self).wf(),
            old(self).fresh_id() < u64::MAX,
        ensures
            final(self).wf(),
            r.0 == old(self).fresh_id(),
            final(self).fresh_id() == old(self).fresh_id() + 1,
            exists|now: u64| {
                &&& final(self)@ == capped(
                    seq![(ClipboardItem { id: r.0, kind: kind, copied_at: now })] + old(self)@,
                )
                &&& r.1@ == overflow(
                    seq![(ClipboardItem { id: r.0, kind: kind, copied_at: now })] + old(self)@,
                )
                &&& final(self).model() == apply(old(self).model(), HistoryOp::Insert(kind, now))
            },
    {
        let now = unix_now();
        self.insert_front_at(kind, now)
    }

    /// Removes everything, returning the removed items, newest first, for cleanup.
    pub fn clear(&mut self) -> (r: Vec<ClipboardItem>)
        requires
            old(self).wf(),
        ensures
            final(self).wf(),
            final(self).fresh_id() == old(self).fresh_id(),
            final(self)@.len() == 0,
            r@ == old(self)@,
            final(self).model() == apply(old(self).model(), HistoryOp::Clear),
    {
        let mut out: Vec<ClipboardItem> = Vec::new();
        let ghost all = self.items@;
        while self.items.len() > 0
            invariant
                out@ + self.items@ == all,
                self.next_id == old(self).next_id,
            decreases self.items@.len(),
        {
            if let Some(item) = self.items.pop_front() {
                out.push(item);
            }
            assert(out@ + self.items@ =~= all);
        }
        assert(out@ =~= all);
        assert(self@ =~= Seq::<ClipboardItem>::empty());
        out
    }

    /// Removes every item whose id is in `ids`, returning the removed items
    /// in history order.
    pub fn remove_many(&mut self, ids: &[u64]) -> (r: Vec<ClipboardItem>)
        requires
            old(self).wf(),
        ensures
            final(self).wf(),
            final(self).fresh_id() == old(self).fresh_id(),
            final(self)@ == without_ids(old(self)@, ids@),
            r@ == with_ids(old(self)@, ids@),
    {
        let ghost all = self.items@;
        let mut kept: VecDeque<ClipboardItem> = VecDeque::new();
        let mut removed: Vec<ClipboardItem> = Vec::new();
        while self.items.len() > 0
            invariant
                all.len() <= MAX_ITEMS,
                self.next_id == old(self).next_id,
                forall|k: int| 0 <= k < all.len() ==> (#[trigger] all[k]).id < old(self).next_id,
                self.items@ == all.skip(all.len() - self.items@.len()),
                kept@ == without_ids(all.take(all.len() - self.items@.len()), ids@),
                removed@ == with_ids(all.take(all.len() - self.items@.len()), ids@),
                kept@.len() <= all.len() - self.items@.len(),
                forall|k: int| 0 <= k < kept@.len() ==> (#[trigger] kept@[k]).id < old(self).next_id,
            decreases self.items@.len(),
        {
            let ghost done = all.len() - self.items@.len();
            if let Some(item) = self.items.pop_front() {
                proof {
                    assert(all.take(done + 1).drop_last() =~= all.take(done));
                    assert(all[done] == item);
                    reveal_with_fuel(Seq::filter, 1);
                }
                if contains_id(ids, item.id) {
                    removed.push(item);
                } else {
                    kept.push_back(item);
                }
            }
            assert(self.items@ =~= all.skip(all.len() - self.items@.len()));
        }
        assert(all.take(all.len() as int) =~= all);
        self.items = kept;
        removed
    }

    /// Inserts a new item, captured at `now`, at the front. Returns its id and
    /// the items evicted by the [`MAX_ITEMS`] cap, so the caller can clean up
    /// their image files.
    pub fn insert_front_at(&mut self, kind: ItemKind, now: u64) -> (r: (u64, Vec<ClipboardItem>))
        requires
            old(self).wf(),
            old(self).fresh_id() < u64::MAX,
        ensures
            final(self).wf(),
            r.0 == old(self).fresh_id(),
            final(self).fresh_id() == old(self).fresh_id() + 1,
            final(self)@ == capped(
                seq![(ClipboardItem { id: r.0, kind: kind, copied_at: now })] + old(self)@,
            ),
            r.1@ == overflow(
                seq![(ClipboardItem { id: r.0, kind: kind, copied_at: now })] + old(self)@,
            ),
            final(self).model() == apply(old(self).model(), HistoryOp::Insert(kind, now)),
    {
        let ghost full = seq![(ClipboardItem { id: self.next_id, kind: kind, copied_at: now })]
            + self.items@;
        let id = self.next_id;
        self.next_id = self.next_id + 1;
        self.items.push_front(ClipboardItem { id, kind, copied_at: now });
        assert(self.items@ =~= full);
        let mut evicted: Vec<ClipboardItem> = Vec::new();
        while self.items.len() > MAX_ITEMS
            invariant
                full.len() <= MAX_ITEMS + 1,
                self.next_id == old(self).next_id + 1,
                id == old(self).next_id,
                self.items@.len() <= full.len(),
                self.items@.len() >= MAX_ITEMS || self.items@.len() == full.len(),
                self.items@ == full.take(self.items@.len() as int),
                evicted@ == full.subrange(self.items@.len() as int, full.len() as int).reverse(),
            decreases self.items@.len(),
        {
            if let Some(item) = self.items.pop_back() {
                evicted.push(item);
            }
            assert(evicted@ =~= full.subrange(self.items@.len() as int, full.len() as int).reverse());
        }
        assert(self.items@ =~= capped(full));
        assert(evicted@ =~= overflow(full));
        assert forall|i: int| 0 <= i < self@.len() implies (#[trigger] self@[i]).id < self.fresh_id() by {
            assert(self@[i] == full[i]);
            if i > 0 {
                assert(full[i] == old(self)@[i - 1]);
            }
        }
        (id, evicted)
    }
}

} // verus!
