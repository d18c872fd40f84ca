//! What the app decides on each event: recording a capture, answering a menu
//! click, putting items back on the clipboard, dragging them out. Each
//! decision is a function from the history and the event to the new
//! history and the work left to the host (clipboard, disk, windows).
use vstd::prelude::*;
use vstd::string::*;

use crate::history::{
    capped, first_with_id, first_with_image, first_with_text, has_id, holds_image, holds_text,
    overflow, promoted, unique_ids, lemma_first_unique_id, History, MAX_ITEMS,
};
use crate::item::{fnv1a, fnv1a_spec, ClipboardItem, ItemKind};
use crate::menu::{item_id_of, parse_item_id, ID_AUTOSTART, ID_CLEAR, ID_QUIT, ID_UPDATE};
use crate::panel::{ago_text, image_caption, item_dto, panel_preview, url_like, ItemDto, StateDto};
use crate::text::str_eq;
use std::collections::HashMap;

verus! {

/// Whether some entry of `s` holds the text `t`.
pub open spec fn has_text(s: Seq<ClipboardItem>, t: Seq<char>) -> bool {
    exists|i: int| first_with_text(s, t, i)
}

/// Whether some entry of `s` is an image with hash `h`.
pub open spec fn has_image(s: Seq<ClipboardItem>, h: u64) -> bool {
    exists|i: int| first_with_image(s, h, i)
}

/// The history after promoting the entry with the id `id` (as found first).
pub open spec fn promoted_id(s: Seq<ClipboardItem>, id: u64, now: u64) -> Seq<ClipboardItem> {
    promoted(s, choose|p: int| first_with_id(s, id, p), now)
}

/// The history after recording the captured text `t` at `now`: an entry
/// already holding `t` is promoted, otherwise a new entry with the id
/// `fresh` goes in front.
pub open spec fn after_text(s: Seq<ClipboardItem>, fresh: u64, t: String, now: u64) -> Seq<
    ClipboardItem,
> {
    if has_text(s, t@) {
        promoted_id(s, s[choose|i: int| first_with_text(s, t@, i)].id, now)
    } else {
        capped(seq![(ClipboardItem { id: fresh, kind: ItemKind::Text(t), copied_at: now })] + s)
    }
}

/// The entries that recording the text `t` evicts.
pub open spec fn evicted_by_text(s: Seq<ClipboardItem>, fresh: u64, t: String, now: u64) -> Seq<
    ClipboardItem,
> {
    if has_text(s, t@) {
        Seq::empty()
    } else {
        overflow(seq![(ClipboardItem { id: fresh, kind: ItemKind::Text(t), copied_at: now })] + s)
    }
}

proof fn lemma_first_unique_text(s: Seq<ClipboardItem>, t: Seq<char>, i: int, j: int)
    requires
        first_with_text(s, t, i),
        first_with_text(s, t, j),
    ensures
        i == j,
{
    if i < j {
        assert(!holds_text(s[i], t));
    } else if j < i {
        assert(!holds_text(s[j], t));
    }
}


/// Records a captured text at `now`: a text already in the history moves
/// to the front instead of being stored twice; a new one is inserted.
/// Returns the entries evicted by the cap.
pub fn ingest_text(history: &mut History, text: String, now: u64) -> (evicted: Vec<ClipboardItem>)
    requires
        old(history).wf(),
        has_text(old(history)@, text@) || old(history).fresh_id() < u64::MAX,
    ensures
        final(history).wf(),
        final(history)@ == after_text(old(history)@, old(history).fresh_id() as u64, text, now),
        evicted@ == evicted_by_text(old(history)@, old(history).fresh_id() as u64, text, now),
        final(history).fresh_id() == old(history).fresh_id() + if has_text(old(history)@, text@) {
            0int
        } else {
            1int
        },
{
    match history.find_text(text.as_str()) {
        Some(id) => {
            let ghost i = choose|i: int| first_with_text(old(history)@, text@, i);
            proof {
                let k = choose|k: int| first_with_text(old(history)@, text@, k) && old(history)@[k].id == id;
                lemma_first_unique_text(old(history)@, text@, i, k);
            }
            history.promote_at(id, now);
            proof {
                let p = choose|p: int| first_with_id(old(history)@, id, p) && history@ == promoted(old(history)@, p, now);
                let q = choose|q: int| first_with_id(old(history)@, id, q);
                lemma_first_unique_id(old(history)@, id, p, q);
            }
            Vec::new()
        },
        None => {
            proof {
                if has_text(old(history)@, text@) {
                    let i = choose|i: int| first_with_text(old(history)@, text@, i);
                    assert(holds_text(old(history)@[i], text@));
                }
            }
            let (_, evicted) = history.insert_front_at(ItemKind::Text(text), now);
            evicted
        },
    }
}

/// Both entries hold the same text.
pub open spec fn same_text(a: ClipboardItem, b: ClipboardItem) -> bool {
    &&& a.kind matches ItemKind::Text(x)
    &&& b.kind matches ItemKind::Text(y)
    &&& x@ == y@
}

/// No text occurs twice in `s`.
pub open spec fn distinct_texts(s: Seq<ClipboardItem>) -> bool {
    forall|i: int, j: int| 0 <= i < j < s.len() ==> !same_text(#[trigger] s[i], #[trigger] s[j])
}

/// The position in `s` that position `k` of `promoted(s, i, now)` comes from.
spec fn promoted_source(i: int, k: int) -> int {
    if k == 0 {
        i
    } else if k - 1 < i {
        k - 1
    } else {
        k
    }
}

proof fn lemma_promoted_shape(s: Seq<ClipboardItem>, i: int, now: u64)
    requires
        0 < i < s.len(),
    ensures
        promoted(s, i, now).len() == s.len(),
        forall|k: int|
            0 <= k < s.len() ==> {
                let m = promoted_source(i, k);
                &&& 0 <= m < s.len()
                &&& (#[trigger] promoted(s, i, now)[k]).id == s[m].id
                &&& promoted(s, i, now)[k].kind == s[m].kind
            },
{
    let r = promoted(s, i, now);
    assert forall|k: int| 0 <= k < s.len() implies {
        let m = promoted_source(i, k);
        &&& 0 <= m < s.len()
        &&& (#[trigger] r[k]).id == s[m].id
        &&& r[k].kind == s[m].kind
    } by {
        if k > 0 {
            assert(r[k] == s.remove(i)[k - 1]);
        }
    }
}

/// Copying a text keeps exactly one copy of it, at the front: in a history
/// whose ids are unique and whose texts are distinct, recording a text
/// leaves it as the first entry, and ids stay unique and texts distinct.
pub proof fn lemma_text_copied_once(s: Seq<ClipboardItem>, fresh: u64, t: String, now: u64)
    requires
        s.len() <= MAX_ITEMS,
        unique_ids(s),
        distinct_texts(s),
        forall|i: int| 0 <= i < s.len() ==> (#[trigger] s[i]).id < fresh,
    ensures
        after_text(s, fresh, t, now).len() > 0,
        holds_text(after_text(s, fresh, t, now)[0], t@),
        unique_ids(after_text(s, fresh, t, now)),
        distinct_texts(after_text(s, fresh, t, now)),
{
    let r = after_text(s, fresh, t, now);
    if has_text(s, t@) {
        let i = choose|i: int| first_with_text(s, t@, i);
        let id = s[i].id;
        assert(first_with_id(s, id, i));
        let p = choose|p: int| first_with_id(s, id, p);
        lemma_first_unique_id(s, id, i, p);
        if i > 0 {
            lemma_promoted_shape(s, i, now);
            assert forall|a: int, b: int| 0 <= a < b < r.len() implies #[trigger] r[a].id
                != #[trigger] r[b].id by {
                let ma = promoted_source(i, a);
                let mb = promoted_source(i, b);
                assert(r[a].id == s[ma].id);
                assert(r[b].id == s[mb].id);
                if ma < mb {
                    assert(s[ma].id != s[mb].id);
                } else {
                    assert(s[mb].id != s[ma].id);
                }
            }
            assert forall|a: int, b: int| 0 <= a < b < r.len() implies !same_text(
                #[trigger] r[a],
                #[trigger] r[b],
            ) by {
                let ma = promoted_source(i, a);
                let mb = promoted_source(i, b);
                assert(r[a].kind == s[ma].kind);
                assert(r[b].kind == s[mb].kind);
                if ma < mb {
                    assert(!same_text(s[ma], s[mb]));
                } else {
                    assert(!same_text(s[mb], s[ma]));
                }
            }
            assert(r[0].kind == s[i].kind);
        }
    } else {
        let x = ClipboardItem { id: fresh, kind: ItemKind::Text(t), copied_at: now };
        let full = seq![x] + s;
        assert forall|k: int| 0 <= k < r.len() implies (#[trigger] r[k]) == full[k] by {}
        assert forall|a: int, b: int| 0 <= a < b < r.len() implies #[trigger] r[a].id
            != #[trigger] r[b].id by {
            assert(r[a] == full[a] && r[b] == full[b]);
            if a == 0 {
                assert(full[b] == s[b - 1]);
            } else {
                assert(full[a] == s[a - 1] && full[b] == s[b - 1]);
            }
        }
        assert forall|a: int, b: int| 0 <= a < b < r.len() implies !same_text(
            #[trigger] r[a],
            #[trigger] r[b],
        ) by {
            assert(r[a] == full[a] && r[b] == full[b]);
            if a == 0 {
                assert(full[b] == s[b - 1]);
                if same_text(r[a], r[b]) {
                    assert(holds_text(s[b - 1], t@));
                    assert(exists|j: int| 0 <= j < s.len() && holds_text(s[j], t@));
                    lemma_exists_first_text(s, t@, b - 1);
                }
            } else {
                assert(full[a] == s[a - 1] && full[b] == s[b - 1]);
            }
        }
        assert(r[0] == x);
    }
}

/// Some entry holds `t` exactly when a first such entry exists.
proof fn lemma_exists_first_text(s: Seq<ClipboardItem>, t: Seq<char>, j: int)
    requires
        0 <= j < s.len(),
        holds_text(s[j], t),
    ensures
        has_text(s, t),
    decreases j,
{
    if exists|k: int| 0 <= k < j && holds_text(#[trigger] s[k], t) {
        let k = choose|k: int| 0 <= k < j && holds_text(#[trigger] s[k], t);
        lemma_exists_first_text(s, t, k);
    } else {
        assert(first_with_text(s, t, j));
    }
}

/// The history after an image with hash `h` was copied again, if it is
/// already there: its entry is promoted.
pub open spec fn after_known_image(s: Seq<ClipboardItem>, h: u64, now: u64) -> Seq<ClipboardItem> {
    promoted_id(s, s[choose|i: int| first_with_image(s, h, i)].id, now)
}

/// First step of recording a captured image: hashes its RGBA bytes and, if
/// an image with that hash is already in the history, promotes it and
/// returns `None`. Otherwise leaves the history as it is and returns the
/// hash: the host then stores the PNG and inserts the entry
/// ([`History::insert_front_at`]).
pub fn recall_image(history: &mut History, rgba: &[u8], now: u64) -> (r: Option<u64>)
    requires
        old(history).wf(),
    ensures
        final(history).wf(),
        final(history).fresh_id() == old(history).fresh_id(),
        if has_image(old(history)@, fnv1a_spec(rgba@)) {
            &&& r is None
            &&& final(history)@ == after_known_image(old(history)@, fnv1a_spec(rgba@), now)
        } else {
            &&& r == Some(fnv1a_spec(rgba@))
            &&& final(history)@ == old(history)@
        },
{
    let hash = fnv1a(rgba);
    match history.find_image(hash) {
        Some(id) => {
            let ghost i = choose|i: int| first_with_image(old(history)@, hash, i);
            proof {
                let k = choose|k: int| first_with_image(old(history)@, hash, k) && old(history)@[k].id == id;
                lemma_first_unique_image(old(history)@, hash, i, k);
            }
            history.promote_at(id, now);
            proof {
                let p = choose|p: int| first_with_id(old(history)@, id, p) && history@ == promoted(old(history)@, p, now);
                let q = choose|q: int| first_with_id(old(history)@, id, q);
                lemma_first_unique_id(old(history)@, id, p, q);
            }
            None
        },
        None => {
            proof {
                if has_image(old(history)@, hash) {
                    let i = choose|i: int| first_with_image(old(history)@, hash, i);
                    assert(holds_image(old(history)@[i], hash));
                }
            }
            Some(hash)
        },
    }
}

proof fn lemma_first_unique_image(s: Seq<ClipboardItem>, h: u64, i: int, j: int)
    requires
        first_with_image(s, h, i),
        first_with_image(s, h, j),
    ensures
        i == j,
{
    if i < j {
        assert(!holds_image(s[i], h));
    } else if j < i {
        assert(!holds_image(s[j], h));
    }
}

/// The entry that a lookup of `id` finds: the first with that id.
pub open spec fn lookup(s: Seq<ClipboardItem>, id: u64) -> Option<ClipboardItem> {
    if has_id(s, id) {
        Some(s[choose|i: int| first_with_id(s, id, i)])
    } else {
        None
    }
}

/// What to put back on the clipboard for one entry.
#[derive(Debug, PartialEq, Eq)]
pub enum Restore {
    /// This text.
    Text(String),
    /// The image stored in this PNG file.
    Image(String),
}

/// What restoring the entry `it` puts back.
pub open spec fn restore_of(it: ClipboardItem) -> Restore {
    match it.kind {
        ItemKind::Text(t) => Restore::Text(t),
        ItemKind::Image { png, .. } => Restore::Image(png),
    }
}

proof fn lemma_lookup(s: Seq<ClipboardItem>, id: u64, i: int)
    requires
        first_with_id(s, id, i),
    ensures
        lookup(s, id) == Some(s[i]),
{
    let j = choose|j: int| first_with_id(s, id, j);
    lemma_first_unique_id(s, id, i, j);
}

fn restore_of_item(it: &ClipboardItem) -> (r: Restore)
    ensures
        r == restore_of(*it),
{
    match &it.kind {
        ItemKind::Text(t) => Restore::Text(t.clone()),
        ItemKind::Image { png, .. } => Restore::Image(png.clone()),
    }
}

/// What clicking the history entry `id` puts back on the clipboard:
/// nothing when the id is unknown.
pub fn restore_plan(history: &History, id: u64) -> (r: Option<Restore>)
    ensures
        r == match lookup(history@, id) {
            Some(it) => Some(restore_of(it)),
            None => None::<Restore>,
        },
{
    match history.get(id) {
        Some(it) => {
            proof {
                let i = choose|i: int| first_with_id(history@, id, i) && *it == history@[i];
                lemma_lookup(history@, id, i);
            }
            Some(restore_of_item(it))
        },
        None => None,
    }
}

/// The texts of the entries named by `ids`, in the order of `ids`; unknown
/// ids and images are skipped.
pub open spec fn texts_of(s: Seq<ClipboardItem>, ids: Seq<u64>) -> Seq<Seq<char>>
    decreases ids.len(),
{
    if ids.len() == 0 {
        Seq::empty()
    } else {
        texts_of(s, ids.drop_last()) + match lookup(s, ids.last()) {
            Some(it) => match it.kind {
                ItemKind::Text(t) => seq![t@],
                ItemKind::Image { .. } => Seq::empty(),
            },
            None => Seq::empty(),
        }
    }
}

/// The PNG files of the image entries named by `ids`, in the order of `ids`;
/// unknown ids and texts are skipped.
pub open spec fn pngs_of(s: Seq<ClipboardItem>, ids: Seq<u64>) -> Seq<Seq<char>>
    decreases ids.len(),
{
    if ids.len() == 0 {
        Seq::empty()
    } else {
        pngs_of(s, ids.drop_last()) + match lookup(s, ids.last()) {
            Some(it) => match it.kind {
                ItemKind::Image { png, .. } => seq![png@],
                ItemKind::Text(_) => Seq::empty(),
            },
            None => Seq::empty(),
        }
    }
}

/// The parts joined with newlines.
pub open spec fn join_lines(parts: Seq<Seq<char>>) -> Seq<char>
    decreases parts.len(),
{
    if parts.len() == 0 {
        Seq::empty()
    } else if parts.len() == 1 {
        parts[0]
    } else {
        join_lines(parts.drop_last()) + seq!['\n'] + parts.last()
    }
}

/// One part joins to itself, and joining two non-empty lists of parts one
/// after the other gives the two joins with one newline between them: every
/// two neighbouring parts are separated by exactly one `\n`.
pub proof fn lemma_join_lines_concat(p: Seq<Seq<char>>, q: Seq<Seq<char>>)
    requires
        p.len() > 0,
        q.len() > 0,
    ensures
        join_lines(p + q) == join_lines(p) + seq!['\n'] + join_lines(q),
        join_lines(seq![p[0]]) == p[0],
    decreases q.len(),
{
    if q.len() == 1 {
        assert((p + q).drop_last() =~= p);
        assert((p + q).last() == q[0]);
    } else {
        lemma_join_lines_concat(p, q.drop_last());
        assert((p + q).drop_last() =~= p + q.drop_last());
        assert((p + q).last() == q.last());
        assert(join_lines(p) + seq!['\n'] + join_lines(q.drop_last()) + seq!['\n'] + q.last()
            =~= join_lines(p) + seq!['\n'] + (join_lines(q.drop_last()) + seq!['\n']
            + q.last()));
    }
}

/// The character sequences of a list of strings.
pub open spec fn string_views(v: Seq<String>) -> Seq<Seq<char>> {
    v.map_values(|s: String| s@)
}

fn push_string(v: &mut Vec<String>, s: String)
    ensures
        string_views(final(v)@) == string_views(old(v)@).push(s@),
{
    v.push(s);
    assert(string_views(v@) =~= string_views(old(v)@).push(s@));
}

/// The texts and the PNG files of the entries named by `ids`.
fn gather(history: &History, ids: &[u64]) -> (r: (Vec<String>, Vec<String>))
    ensures
        string_views(r.0@) == texts_of(history@, ids@),
        string_views(r.1@) == pngs_of(history@, ids@),
{
    let mut texts: Vec<String> = Vec::new();
    let mut pngs: Vec<String> = Vec::new();
    let mut k: usize = 0;
    while k < ids.len()
        invariant
            k <= ids@.len(),
            string_views(texts@) == texts_of(history@, ids@.take(k as int)),
            string_views(pngs@) == pngs_of(history@, ids@.take(k as int)),
        decreases ids@.len() - k,
    {
        let ghost pre = ids@.take(k as int);
        assert(ids@.take(k + 1).drop_last() =~= pre);
        assert(ids@.take(k + 1).last() == ids@[k as int]);
        match history.get(ids[k]) {
            Some(it) => {
                proof {
                    let i = choose|i: int| first_with_id(history@, ids@[k as int], i) && *it == history@[i];
                    lemma_lookup(history@, ids@[k as int], i);
                }
                match &it.kind {
                    ItemKind::Text(t) => push_string(&mut texts, t.clone()),
                    ItemKind::Image { png, .. } => push_string(&mut pngs, png.clone()),
                }
            },
            None => {},
        }
        k += 1;
        assert(string_views(texts@) =~= texts_of(history@, ids@.take(k as int)));
        assert(string_views(pngs@) =~= pngs_of(history@, ids@.take(k as int)));
    }
    assert(ids@.take(k as int) =~= ids@);
    (texts, pngs)
}

/// The strings joined with newlines.
fn join_with_newlines(parts: &Vec<String>) -> (r: String)
    ensures
        r@ == join_lines(string_views(parts@)),
{
    let mut out = String::new();
    let mut i: usize = 0;
    while i < parts.len()
        invariant
            i <= parts@.len(),
            out@ == join_lines(string_views(parts@).take(i as int)),
        decreases parts@.len() - i,
    {
        let ghost pre = string_views(parts@).take(i as int);
        assert(string_views(parts@).take(i + 1).drop_last() =~= pre);
        if i > 0 {
            crate::text::push_char(&mut out, '\n');
        }
        out.append(parts[i].as_str());
        i += 1;
        assert(out@ =~= join_lines(string_views(parts@).take(i as int)));
    }
    assert(string_views(parts@).take(i as int) =~= string_views(parts@));
    out
}

/// The joined texts, or nothing when there is no text.
pub open spec fn joined_text(parts: Seq<Seq<char>>) -> Option<Seq<char>> {
    if parts.len() == 0 {
        None
    } else {
        Some(join_lines(parts))
    }
}

/// The view of an optional string.
pub open spec fn opt_view(s: Option<String>) -> Option<Seq<char>> {
    match s {
        Some(t) => Some(t@),
        None => None,
    }
}

fn joined_or_none(parts: &Vec<String>) -> (r: Option<String>)
    ensures
        opt_view(r) == joined_text(string_views(parts@)),
{
    if parts.len() == 0 {
        None
    } else {
        Some(join_with_newlines(parts))
    }
}

/// What copying a selection of entries puts on the clipboard.
pub enum CopyPlan {
    /// Nothing to copy.
    Nothing,
    /// One entry, put back as it was.
    Single(Restore),
    /// Several entries: the texts joined with newlines as one pasteboard
    /// item, then one item per image file, each read from disk by the host.
    Many { text: Option<String>, pngs: Vec<String> },
}

/// Copying the selection `ids`: a single known entry goes back as itself;
/// otherwise the texts are joined with newlines and each image becomes its
/// own pasteboard item, so several images paste at once like a multi-file
/// copy.
pub fn copy_plan(history: &History, ids: &[u64]) -> (r: CopyPlan)
    ensures
        ids@.len() == 0 ==> r is Nothing,
        ids@.len() == 1 && has_id(history@, ids@[0]) ==> r == CopyPlan::Single(
            restore_of(lookup(history@, ids@[0]).unwrap()),
        ),
        ids@.len() > 1 || (ids@.len() == 1 && !has_id(history@, ids@[0])) ==> (r matches CopyPlan::Many {
            text,
            pngs,
        } && opt_view(text) == joined_text(texts_of(history@, ids@)) && string_views(pngs@)
            == pngs_of(history@, ids@)),
{
    if ids.len() == 0 {
        return CopyPlan::Nothing;
    }
    if ids.len() == 1 {
        match history.get(ids[0]) {
            Some(it) => {
                proof {
                    let i = choose|i: int| first_with_id(history@, ids@[0], i) && *it == history@[i];
                    lemma_lookup(history@, ids@[0], i);
                }
                return CopyPlan::Single(restore_of_item(it));
            },
            None => {},
        }
    }
    let (texts, pngs) = gather(history, ids);
    CopyPlan::Many { text: joined_or_none(&texts), pngs }
}

/// What dragging a selection out of the panel carries.
pub enum DragPlan {
    /// All text: the texts joined with newlines, dragged inline.
    Text(String),
    /// At least one image: the image files, plus the joined texts if any,
    /// which the host writes to a temporary file beside them.
    Files { pngs: Vec<String>, text: Option<String> },
}

/// Dragging the selection `ids` out: nothing when no entry is known; only
/// texts drag as joined text; any image makes it a file drag.
pub fn drag_plan(history: &History, ids: &[u64]) -> (r: Option<DragPlan>)
    ensures
        pngs_of(history@, ids@).len() == 0 ==> match r {
            None => texts_of(history@, ids@).len() == 0,
            Some(DragPlan::Text(t)) => texts_of(history@, ids@).len() > 0 && t@ == join_lines(
                texts_of(history@, ids@),
            ),
            Some(DragPlan::Files { .. }) => false,
        },
        pngs_of(history@, ids@).len() > 0 ==> (r matches Some(DragPlan::Files { pngs, text })
            && string_views(pngs@) == pngs_of(history@, ids@) && opt_view(text) == joined_text(
            texts_of(history@, ids@),
        )),
{
    let (texts, pngs) = gather(history, ids);
    if pngs.len() == 0 {
        if texts.len() == 0 {
            return None;
        }
        return Some(DragPlan::Text(join_with_newlines(&texts)));
    }
    Some(DragPlan::Files { pngs, text: joined_or_none(&texts) })
}

/// What a click on a tray menu entry asks for.
#[derive(Debug, PartialEq, Eq)]
pub enum MenuCommand {
    Quit,
    Clear,
    Update,
    ToggleAutostart,
    /// Put the history entry with this id back on the clipboard.
    Restore(u64),
    Ignore,
}

/// The command behind the tray menu entry `id`.
pub fn menu_command(id: &str) -> (r: MenuCommand)
    ensures
        r == if id@ == ID_QUIT@ {
            MenuCommand::Quit
        } else if id@ == ID_CLEAR@ {
            MenuCommand::Clear
        } else if id@ == ID_UPDATE@ {
            MenuCommand::Update
        } else if id@ == ID_AUTOSTART@ {
            MenuCommand::ToggleAutostart
        } else {
            match item_id_of(id@) {
                Some(n) => MenuCommand::Restore(n),
                None => MenuCommand::Ignore,
            }
        },
{
    if str_eq(id, ID_QUIT) {
        MenuCommand::Quit
    } else if str_eq(id, ID_CLEAR) {
        MenuCommand::Clear
    } else if str_eq(id, ID_UPDATE) {
        MenuCommand::Update
    } else if str_eq(id, ID_AUTOSTART) {
        MenuCommand::ToggleAutostart
    } else {
        match parse_item_id(id) {
            Some(n) => MenuCommand::Restore(n),
            None => MenuCommand::Ignore,
        }
    }
}

/// What a click on the panel app's tray menu asks for.
#[derive(Debug, PartialEq, Eq)]
pub enum TrayCommand {
    TogglePanel,
    ToggleAutostart,
    Clear,
    Update,
    Quit,
    Ignore,
}

/// The command behind the panel app's tray menu entry `id`.
pub fn tray_command(id: &str) -> (r: TrayCommand)
    ensures
        r == if id@ == "show"@ {
            TrayCommand::TogglePanel
        } else if id@ == ID_AUTOSTART@ {
            TrayCommand::ToggleAutostart
        } else if id@ == ID_CLEAR@ {
            TrayCommand::Clear
        } else if id@ == ID_UPDATE@ {
            TrayCommand::Update
        } else if id@ == ID_QUIT@ {
            TrayCommand::Quit
        } else {
            TrayCommand::Ignore
        },
{
    if str_eq(id, "show") {
        TrayCommand::TogglePanel
    } else if str_eq(id, ID_AUTOSTART) {
        TrayCommand::ToggleAutostart
    } else if str_eq(id, ID_CLEAR) {
        TrayCommand::Clear
    } else if str_eq(id, ID_UPDATE) {
        TrayCommand::Update
    } else if str_eq(id, ID_QUIT) {
        TrayCommand::Quit
    } else {
        TrayCommand::Ignore
    }
}

/// `d` is the panel's view of `item`, with the thumbnail `thumb`, seen at `now`.
pub open spec fn dto_of(d: ItemDto, item: ClipboardItem, thumb: Option<String>, now: u64) -> bool {
    &&& d.id == item.id
    &&& d.ago@ == ago_text(item.copied_at, now)
    &&& match item.kind {
        ItemKind::Text(t) => {
            &&& d.kind@ == "text"@
            &&& d.preview@ == panel_preview(t@)
            &&& d.is_url == url_like(t@)
            &&& d.thumb is None
        },
        ItemKind::Image { width, height, .. } => {
            &&& d.kind@ == "image"@
            &&& d.preview@ == image_caption(width, height)
            &&& !d.is_url
            &&& d.thumb == thumb
        },
    }
}

/// The cached thumbnail of the entry `id`, if any.
pub open spec fn thumb_of(thumbs: Map<u64, String>, id: u64) -> Option<String> {
    if thumbs.contains_key(id) {
        Some(thumbs[id])
    } else {
        None
    }
}

/// The full panel state: one view per entry, newest first, with its cached
/// thumbnail, plus the autostart flag, the version, the pending update and
/// the history cap.
pub fn state_dto(
    history: &History,
    thumbs: &HashMap<u64, String>,
    now: u64,
    autostart: bool,
    version: String,
    pending_update: Option<String>,
) -> (r: StateDto)
    requires
        history.wf(),
    ensures
        r.items@.len() == history@.len(),
        forall|i: int|
            0 <= i < history@.len() ==> dto_of(
                #[trigger] r.items@[i],
                history@[i],
                thumb_of(thumbs@, history@[i].id),
                now,
            ),
        r.autostart == autostart,
        r.version == version,
        r.pending_update == pending_update,
        r.max_items == MAX_ITEMS,
{
    broadcast use vstd::std_specs::hash::group_hash_axioms;

    let mut items: Vec<ItemDto> = Vec::new();
    let ghost all = history@;
    let mut index: usize = 0;
    for it in iter: history.items()
        invariant
            index == iter.index(),
            all == history@,
            all.len() <= MAX_ITEMS,
            iter.seq().len() == all.len(),
            forall|i: int| 0 <= i < all.len() ==> *(#[trigger] iter.seq()[i]) == all[i],
            items@.len() == index,
            forall|i: int|
                0 <= i < index ==> dto_of(
                    #[trigger] items@[i],
                    all[i],
                    thumb_of(thumbs@, all[i].id),
                    now,
                ),
    {
        let thumb = match thumbs.get(&it.id) {
            Some(t) => Some(t.clone()),
            None => None,
        };
        let d = item_dto(it, thumb, now);
        items.push(d);
        index += 1;
    }
    StateDto { items, autostart, version, pending_update, max_items: MAX_ITEMS }
}

/// The ids of a list of entries.
pub open spec fn id_set(items: Seq<ClipboardItem>) -> Set<u64> {
    Set::new(|id: u64| exists|i: int| 0 <= i < items.len() && (#[trigger] items[i]).id == id)
}

/// Drops the cached thumbnails of the entries that left the history.
pub fn forget_thumbs<V>(thumbs: &mut HashMap<u64, V>, gone: &[ClipboardItem])
    ensures
        final(thumbs)@ == old(thumbs)@.remove_keys(id_set(gone@)),
{
    broadcast use vstd::std_specs::hash::group_hash_axioms;

    let mut k: usize = 0;
    while k < gone.len()
        invariant
            k <= gone@.len(),
            thumbs@ == old(thumbs)@.remove_keys(id_set(gone@.take(k as int))),
        decreases gone@.len() - k,
    {
        let id = gone[k].id;
        thumbs.remove(&id);
        k += 1;
        assert(id_set(gone@.take(k as int)) =~= id_set(gone@.take(k - 1)).insert(id)) by {
            assert forall|x: u64| id_set(gone@.take(k as int)).contains(x) implies id_set(
                gone@.take(k - 1),
            ).insert(id).contains(x) by {
                let i = choose|i: int| 0 <= i < k && (#[trigger] gone@.take(k as int)[i]).id == x;
                if i < k - 1 {
                    assert(gone@.take(k - 1)[i] == gone@.take(k as int)[i]);
                }
            }
            assert forall|x: u64| id_set(gone@.take(k - 1)).insert(id).contains(x) implies id_set(
                gone@.take(k as int),
            ).contains(x) by {
                if x == id {
                    assert(gone@.take(k as int)[k - 1].id == x);
                } else {
                    let i = choose|i: int| 0 <= i < k - 1 && (#[trigger] gone@.take(k - 1)[i]).id == x;
                    assert(gone@.take(k as int)[i] == gone@.take(k - 1)[i]);
                }
            }
        }
        assert(thumbs@ =~= old(thumbs)@.remove_keys(id_set(gone@.take(k as int))));
    }
    assert(gone@.take(k as int) =~= gone@);
}

/// Both entries are images with the same content hash.
pub open spec fn same_image(a: ClipboardItem, b: ClipboardItem) -> bool {
    &&& a.kind matches ItemKind::Image { hash: x, .. }
    &&& b.kind matches ItemKind::Image { hash: y, .. }
    &&& x == y
}

/// No image hash occurs twice in `s`.
pub open spec fn distinct_images(s: Seq<ClipboardItem>) -> bool {
    forall|i: int, j: int| 0 <= i < j < s.len() ==> !same_image(#[trigger] s[i], #[trigger] s[j])
}

/// The history after recording an image with hash `h` at `now`: a known
/// hash promotes its entry; otherwise the host stored the PNG `png` and the
/// entry goes in front with the id `fresh`.
pub open spec fn after_image(
    s: Seq<ClipboardItem>,
    fresh: u64,
    width: usize,
    height: usize,
    png: String,
    h: u64,
    now: u64,
) -> Seq<ClipboardItem> {
    if has_image(s, h) {
        after_known_image(s, h, now)
    } else {
        capped(
            seq![
                (ClipboardItem {
                    id: fresh,
                    kind: ItemKind::Image { width: width, height: height, png: png, hash: h },
                    copied_at: now,
                }),
            ] + s,
        )
    }
}

/// Some entry is an image with hash `h` exactly when a first such entry exists.
proof fn lemma_exists_first_image(s: Seq<ClipboardItem>, h: u64, j: int)
    requires
        0 <= j < s.len(),
        holds_image(s[j], h),
    ensures
        has_image(s, h),
    decreases j,
{
    if exists|k: int| 0 <= k < j && holds_image(#[trigger] s[k], h) {
        let k = choose|k: int| 0 <= k < j && holds_image(#[trigger] s[k], h);
        lemma_exists_first_image(s, h, k);
    } else {
        assert(first_with_image(s, h, j));
    }
}

/// Copying an image keeps exactly one copy of it, at the front: in a
/// history whose ids are unique and whose image hashes are distinct,
/// recording an image (promoted when its hash is known, inserted otherwise)
/// leaves an image with its hash as the first entry, and ids stay unique
/// and hashes distinct.
pub proof fn lemma_image_copied_once(
    s: Seq<ClipboardItem>,
    fresh: u64,
    width: usize,
    height: usize,
    png: String,
    h: u64,
    now: u64,
)
    requires
        s.len() <= MAX_ITEMS,
        unique_ids(s),
        distinct_images(s),
        forall|i: int| 0 <= i < s.len() ==> (#[trigger] s[i]).id < fresh,
    ensures
        after_image(s, fresh, width, height, png, h, now).len() > 0,
        holds_image(after_image(s, fresh, width, height, png, h, now)[0], h),
        unique_ids(after_image(s, fresh, width, height, png, h, now)),
        distinct_images(after_image(s, fresh, width, height, png, h, now)),
{
    let r = after_image(s, fresh, width, height, png, h, now);
    if has_image(s, h) {
        let i = choose|i: int| first_with_image(s, h, i);
        let id = s[i].id;
        assert(first_with_id(s, id, i));
        let p = choose|p: int| first_with_id(s, id, p);
        lemma_first_unique_id(s, id, i, p);
        if i > 0 {
            lemma_promoted_shape(s, i, now);
            assert forall|a: int, b: int| 0 <= a < b < r.len() implies #[trigger] r[a].id
                != #[trigger] r[b].id by {
                let ma = promoted_source(i, a);
                let mb = promoted_source(i, b);
                assert(r[a].id == s[ma].id);
                assert(r[b].id == s[mb].id);
                if ma < mb {
                    assert(s[ma].id != s[mb].id);
                } else {
                    assert(s[mb].id != s[ma].id);
                }
            }
            assert forall|a: int, b: int| 0 <= a < b < r.len() implies !same_image(
                #[trigger] r[a],
                #[trigger] r[b],
            ) by {
                let ma = promoted_source(i, a);
                let mb = promoted_source(i, b);
                assert(r[a].kind == s[ma].kind);
                assert(r[b].kind == s[mb].kind);
                if ma < mb {
                    assert(!same_image(s[ma], s[mb]));
                } else {
                    assert(!same_image(s[mb], s[ma]));
                }
            }
            assert(r[0].kind == s[i].kind);
        }
    } else {
        let x = ClipboardItem {
            id: fresh,
            kind: ItemKind::Image { width, height, png, hash: h },
            copied_at: now,
        };
        let full = seq![x] + s;
        assert forall|k: int| 0 <= k < r.len() implies (#[trigger] r[k]) == full[k] by {}
        assert forall|a: int, b: int| 0 <= a < b < r.len() implies #[trigger] r[a].id
            != #[trigger] r[b].id by {
            assert(r[a] == full[a] && r[b] == full[b]);
            if a == 0 {
                assert(full[b] == s[b - 1]);
            } else {
                assert(full[a] == s[a - 1] && full[b] == s[b - 1]);
            }
        }
        assert forall|a: int, b: int| 0 <= a < b < r.len() implies !same_image(
            #[trigger] r[a],
            #[trigger] r[b],
        ) by {
            assert(r[a] == full[a] && r[b] == full[b]);
            if a == 0 {
                assert(full[b] == s[b - 1]);
                if same_image(r[a], r[b]) {
                    assert(holds_image(s[b - 1], h));
                    lemma_exists_first_image(s, h, b - 1);
                }
            } else {
                assert(full[a] == s[a - 1] && full[b] == s[b - 1]);
            }
        }
        assert(r[0] == x);
    }
}

} // verus!
