//! The tray menu: its entries as plain values, the label-safe preview, and
//! the ids that map menu clicks back to history items.
use vstd::prelude::*;
use vstd::string::*;

use crate::history::History;
use crate::item::{ClipboardItem, ItemKind};
use crate::panel::flatten_lines;
use crate::text::{
    all_digits, chars_of, decimal, digits_value, has_prefix_at, is_digit, parse_u64, push_char,
    push_decimal, starts_with, trim, trim_bounds, unsigned_digits,
};

verus! {

pub const ID_CLEAR: &'static str = "clear";

pub const ID_QUIT: &'static str = "quit";

pub const ID_AUTOSTART: &'static str = "autostart";

pub const ID_UPDATE: &'static str = "update";

pub const PREVIEW_CHARS: usize = 60;

pub const ITEM_ID_PREFIX: &'static str = "item:";

/// `s` with each `&` doubled (muda reads a single `&` as a mnemonic marker).
pub open spec fn escape_amp(s: Seq<char>) -> Seq<char>
    decreases s.len(),
{
    if s.len() == 0 {
        Seq::empty()
    } else {
        escape_amp(s.drop_last()) + if s.last() == '&' {
            seq!['&', '&']
        } else {
            seq![s.last()]
        }
    }
}

proof fn lemma_escape_len(s: Seq<char>)
    ensures
        escape_amp(s).len() <= 2 * s.len(),
    decreases s.len(),
{
    if s.len() > 0 {
        lemma_escape_len(s.drop_last());
    }
}

/// The menu label of a text: trimmed, line breaks shown as `⏎`, the first
/// [`PREVIEW_CHARS`] characters with `&` escaped, and an ellipsis when longer.
pub open spec fn menu_preview(s: Seq<char>) -> Seq<char> {
    let one = flatten_lines(trim(s), '⏎');
    if one.len() > PREVIEW_CHARS {
        escape_amp(one.take(PREVIEW_CHARS as int)).push('…')
    } else {
        escape_amp(one)
    }
}

/// Escaping works character by character: the escape of two texts put
/// together is the two escapes put together, and one character escapes to
/// `&&` when it is `&` and to itself otherwise.
pub proof fn lemma_escape_amp_concat(a: Seq<char>, b: Seq<char>)
    ensures
        escape_amp(a + b) == escape_amp(a) + escape_amp(b),
        escape_amp(seq!['&']) == seq!['&', '&'],
        forall|c: char| c != '&' ==> #[trigger] escape_amp(seq![c]) == seq![c],
    decreases b.len(),
{
    assert forall|c: char| c != '&' implies #[trigger] escape_amp(seq![c]) == seq![c] by {
        assert(seq![c].drop_last() =~= Seq::<char>::empty());
        assert(escape_amp(Seq::<char>::empty()) =~= Seq::<char>::empty());
    }
    assert(seq!['&'].drop_last() =~= Seq::<char>::empty());
    assert(escape_amp(Seq::<char>::empty()) =~= Seq::<char>::empty());
    assert(escape_amp(seq!['&']) =~= seq!['&', '&']);
    if b.len() == 0 {
        assert(a + b =~= a);
        assert(escape_amp(a) + escape_amp(b) =~= escape_amp(a));
    } else {
        lemma_escape_amp_concat(a, b.drop_last());
        assert((a + b).drop_last() =~= a + b.drop_last());
        assert((a + b).last() == b.last());
        let tail = if b.last() == '&' {
            seq!['&', '&']
        } else {
            seq![b.last()]
        };
        assert(escape_amp(a) + escape_amp(b.drop_last()) + tail =~= escape_amp(a) + (escape_amp(
            b.drop_last(),
        ) + tail));
    }
}

/// The menu label begins with the beginning of the text: for every `k` up
/// to [`PREVIEW_CHARS`] (and the text's length), the label starts with the
/// escape of the first `k` characters of the trimmed text with line breaks
/// shown as `⏎`. A longer text is cut after [`PREVIEW_CHARS`] characters and
/// ends in an ellipsis; a shorter one is shown whole.
pub proof fn lemma_menu_preview_prefix(s: Seq<char>, k: int)
    requires
        0 <= k <= flatten_lines(trim(s), '⏎').len(),
        k <= PREVIEW_CHARS,
    ensures
        ({
            let one = flatten_lines(trim(s), '⏎');
            let head = escape_amp(one.take(k));
            &&& head.len() <= menu_preview(s).len()
            &&& menu_preview(s).take(head.len() as int) == head
            &&& one.len() > PREVIEW_CHARS ==> menu_preview(s).len() == escape_amp(
                one.take(PREVIEW_CHARS as int),
            ).len() + 1 && menu_preview(s).last() == '…'
            &&& one.len() <= PREVIEW_CHARS ==> menu_preview(s) == escape_amp(one)
        }),
{
    let one = flatten_lines(trim(s), '⏎');
    let cut = if one.len() > PREVIEW_CHARS {
        PREVIEW_CHARS as int
    } else {
        one.len() as int
    };
    let shown = one.take(cut);
    assert(shown =~= one.take(k) + shown.skip(k));
    assert(one.take(k) =~= shown.take(k));
    lemma_escape_amp_concat(one.take(k), shown.skip(k));
    let head = escape_amp(one.take(k));
    assert(escape_amp(shown).take(head.len() as int) =~= head);
    if one.len() > PREVIEW_CHARS {
        assert(menu_preview(s).take(head.len() as int) =~= head);
    } else {
        assert(shown =~= one);
    }
}

/// The menu id of the history item `id`.
pub open spec fn item_id_text(id: u64) -> Seq<char> {
    ITEM_ID_PREFIX@ + decimal(id as nat)
}

/// The history item id that a menu id names, if it names one.
pub open spec fn item_id_of(menu_id: Seq<char>) -> Option<u64> {
    if starts_with(menu_id, ITEM_ID_PREFIX@) {
        parse_u64(menu_id.skip(ITEM_ID_PREFIX@.len() as int))
    } else {
        None
    }
}

/// A menu preview shows at most [`PREVIEW_CHARS`] characters of the text:
/// with each `&` doubled and the ellipsis, it is at most twice that plus one.
pub proof fn lemma_menu_preview_len(s: Seq<char>)
    ensures
        menu_preview(s).len() <= 2 * PREVIEW_CHARS + 1,
{
    let one = flatten_lines(trim(s), '⏎');
    if one.len() > PREVIEW_CHARS {
        lemma_escape_len(one.take(PREVIEW_CHARS as int));
    } else {
        lemma_escape_len(one);
    }
}

/// A click on the menu entry of a history item names that item: the id the
/// menu gives an item reads back as the item's id.
pub proof fn lemma_item_id_roundtrip(id: u64)
    ensures
        item_id_of(item_id_text(id)) == Some(id),
{
    let t = item_id_text(id);
    let p = ITEM_ID_PREFIX@;
    assert(t.take(p.len() as int) =~= p);
    assert(t.skip(p.len() as int) =~= decimal(id as nat));
    crate::text::lemma_parse_decimal(id);
}

/// One-line label-safe preview: newlines collapsed, `&` escaped (muda treats
/// it as a mnemonic marker), truncated at a char boundary with an ellipsis.
pub fn preview(text: &str) -> (r: String)
    ensures
        r@ == menu_preview(text@),
{
    let v = chars_of(text);
    let (lo, hi) = trim_bounds(&v);
    let ghost one = flatten_lines(v@.subrange(lo as int, hi as int), '⏎');
    let take = if hi - lo > PREVIEW_CHARS {
        PREVIEW_CHARS
    } else {
        hi - lo
    };
    let mut out = String::new();
    let mut i: usize = 0;
    while i < take
        invariant
            lo <= hi <= v@.len(),
            take <= hi - lo,
            one == flatten_lines(v@.subrange(lo as int, hi as int), '⏎'),
            i <= take,
            out@ == escape_amp(one.take(i as int)),
        decreases take - i,
    {
        let c = v[lo + i];
        let c = if c == '\n' || c == '\r' {
            '⏎'
        } else {
            c
        };
        assert(one.take(i + 1).drop_last() =~= one.take(i as int));
        if c == '&' {
            push_char(&mut out, '&');
            push_char(&mut out, '&');
        } else {
            push_char(&mut out, c);
        }
        i += 1;
        assert(out@ =~= escape_amp(one.take(i as int)));
    }
    if hi - lo > PREVIEW_CHARS {
        push_char(&mut out, '…');
    } else {
        assert(one.take(i as int) =~= one);
    }
    out
}

/// The value of the digits `v[from..to]` is at least that of any prefix.
proof fn lemma_digits_prefix_le(s: Seq<char>, i: int)
    requires
        0 <= i <= s.len(),
    ensures
        digits_value(s.take(i)) <= digits_value(s),
    decreases s.len(),
{
    if i < s.len() {
        assert(s.drop_last().take(i) =~= s.take(i));
        lemma_digits_prefix_le(s.drop_last(), i);
    } else {
        assert(s.take(i) =~= s);
    }
}

/// Parses `v[from..]` as `str::parse::<u64>` does.
fn parse_u64_at(v: &Vec<char>, from: usize) -> (r: Option<u64>)
    requires
        from <= v@.len(),
    ensures
        r == parse_u64(v@.skip(from as int)),
{
    let ghost s = v@.skip(from as int);
    let n = v.len();
    let mut k = from;
    if k < n && v[k] == '+' {
        k += 1;
    }
    let ghost d = v@.skip(k as int);
    assert(d =~= unsigned_digits(s));
    if k == n {
        return None;
    }
    let mut val: u64 = 0;
    let mut i = k;
    while i < n
        invariant
            k <= i <= n == v@.len(),
            d == v@.skip(k as int),
            s == v@.skip(from as int),
            d == unsigned_digits(s),
            d.len() > 0,
            forall|j: int| 0 <= j < i - k ==> is_digit(#[trigger] d[j]),
            val == digits_value(d.take(i - k)),
        decreases n - i,
    {
        let c = v[i];
        if !('0' <= c && c <= '9') {
            assert(d[i - k] == v@[i as int]);
            assert(!is_digit(d[i - k]));
            return None;
        }
        let digit_val: u64 = (c as u32 - 48) as u64;
        let wide: u128 = val as u128 * 10 + digit_val as u128;
        assert(d.take(i - k + 1).drop_last() =~= d.take(i - k));
        if wide > u64::MAX as u128 {
            proof {
                assert(d[i - k] == v@[i as int]);
                assert(digits_value(d.take(i - k + 1)) == val * 10 + digit_val);
                if all_digits(d) {
                    lemma_digits_prefix_le(d, i - k + 1);
                    assert(digits_value(d) > u64::MAX);
                }
            }
            return None;
        }
        val = wide as u64;
        i += 1;
    }
    assert(d.take(i - k) =~= d);
    Some(val)
}

/// The history item id named by a tray menu id (`item:<id>`), if any.
pub fn parse_item_id(menu_id: &str) -> (r: Option<u64>)
    ensures
        r == item_id_of(menu_id@),
{
    let v = chars_of(menu_id);
    let p = chars_of(ITEM_ID_PREFIX);
    if !has_prefix_at(&v, 0, v.len(), ITEM_ID_PREFIX) {
        assert(v@.subrange(0, v@.len() as int) =~= v@);
        return None;
    }
    assert(v@.subrange(0, v@.len() as int) =~= v@);
    parse_u64_at(&v, p.len())
}

/// The menu id of the history item `id`.
pub fn item_menu_id(id: u64) -> (r: String)
    ensures
        r@ == item_id_text(id),
{
    let mut s: String = ITEM_ID_PREFIX.to_owned();
    push_decimal(&mut s, id);
    s
}

} // verus!

verus! {

/// A tray menu entry, as plain values.
pub enum MenuEntry {
    /// A plain item.
    Item { id: String, label: String, enabled: bool },
    /// A history image; its icon is the cached thumbnail of the history item `item_id`.
    Image { id: String, label: String, item_id: u64 },
    /// A check item.
    Check { id: String, label: String, checked: bool },
    Separator,
}

/// The mathematical form of a [`MenuEntry`].
pub enum EntryModel {
    Item { id: Seq<char>, label: Seq<char>, enabled: bool },
    Image { id: Seq<char>, label: Seq<char>, item_id: u64 },
    Check { id: Seq<char>, label: Seq<char>, checked: bool },
    Separator,
}

impl View for MenuEntry {
    type V = EntryModel;

    open spec fn view(&self) -> EntryModel {
        match self {
            MenuEntry::Item { id, label, enabled } => EntryModel::Item {
                id: id@,
                label: label@,
                enabled: *enabled,
            },
            MenuEntry::Image { id, label, item_id } => EntryModel::Image {
                id: id@,
                label: label@,
                item_id: *item_id,
            },
            MenuEntry::Check { id, label, checked } => EntryModel::Check {
                id: id@,
                label: label@,
                checked: *checked,
            },
            MenuEntry::Separator => EntryModel::Separator,
        }
    }
}

/// The models of a list of entries.
pub open spec fn models(s: Seq<MenuEntry>) -> Seq<EntryModel> {
    s.map_values(|e: MenuEntry| e@)
}

/// The menu entry of the history item `it` at position `index`.
pub open spec fn history_entry(it: ClipboardItem, index: int) -> EntryModel {
    let number = decimal((index + 1) as nat) + ". "@;
    match it.kind {
        ItemKind::Text(t) => EntryModel::Item {
            id: item_id_text(it.id),
            label: number + menu_preview(t@),
            enabled: true,
        },
        ItemKind::Image { width, height, .. } => EntryModel::Image {
            id: item_id_text(it.id),
            label: number + "Imagen ("@ + decimal(width as nat) + "×"@ + decimal(height as nat)
                + ")"@,
            item_id: it.id,
        },
    }
}

/// The full tray menu: "empty" when there is no item, one entry per item,
/// then the version, the pending update if any, the autostart toggle,
/// "clear" (enabled when there is something to clear) and "quit".
pub open spec fn tray_layout(
    items: Seq<ClipboardItem>,
    autostart_enabled: bool,
    version: Seq<char>,
    pending_update: Option<Seq<char>>,
) -> Seq<EntryModel> {
    let head = if items.len() == 0 {
        seq![EntryModel::Item { id: "empty"@, label: "Historial vacío"@, enabled: false }]
    } else {
        Seq::empty()
    };
    let body = Seq::new(items.len(), |i: int| history_entry(items[i], i));
    let update = match pending_update {
        Some(tag) => seq![
            EntryModel::Item {
                id: ID_UPDATE@,
                label: "⬇ Actualizar a "@ + tag + " y reiniciar"@,
                enabled: true,
            },
        ],
        None => Seq::empty(),
    };
    head + body + seq![
        EntryModel::Separator,
        EntryModel::Item { id: "version"@, label: "Clipboard Saver "@ + version, enabled: false },
    ] + update + seq![
        EntryModel::Check {
            id: ID_AUTOSTART@,
            label: "Iniciar con el sistema"@,
            checked: autostart_enabled,
        },
        EntryModel::Item { id: ID_CLEAR@, label: "Limpiar historial"@, enabled: items.len() > 0 },
        EntryModel::Item { id: ID_QUIT@, label: "Salir"@, enabled: true },
    ]
}

fn push_entry(v: &mut Vec<MenuEntry>, e: MenuEntry)
    ensures
        models(final(v)@) == models(old(v)@).push(e@),
{
    v.push(e);
    assert(models(v@) =~= models(old(v)@).push(e@));
}

/// The menu entry of one history item.
fn history_entry_of(it: &ClipboardItem, index: usize) -> (r: MenuEntry)
    requires
        index < usize::MAX,
    ensures
        r@ == history_entry(*it, index as int),
{
    let mut label = String::new();
    push_decimal(&mut label, (index + 1) as u64);
    label.append(". ");
    match &it.kind {
        ItemKind::Text(text) => {
            let p = preview(text.as_str());
            label.append(p.as_str());
            MenuEntry::Item { id: item_menu_id(it.id), label, enabled: true }
        },
        ItemKind::Image { width, height, .. } => {
            label.append("Imagen (");
            push_decimal(&mut label, *width as u64);
            label.append("×");
            push_decimal(&mut label, *height as u64);
            label.append(")");
            MenuEntry::Image { id: item_menu_id(it.id), label, item_id: it.id }
        },
    }
}

/// The tray menu for the current history, as a list of entries: the menu
/// is rebuilt from scratch on every change. `version` is the installed
/// release tag (or "dev"); `pending_update` is the tag of a downloaded
/// release waiting to be installed.
pub fn entries(
    history: &History,
    autostart_enabled: bool,
    version: &str,
    pending_update: Option<&str>,
) -> (r: Vec<MenuEntry>)
    requires
        history.wf(),
    ensures
        models(r@) == tray_layout(
            history@,
            autostart_enabled,
            version@,
            match pending_update {
                Some(t) => Some(t@),
                None => None,
            },
        ),
{
    let mut out: Vec<MenuEntry> = Vec::new();
    let ghost items = history@;
    let ghost head = if items.len() == 0 {
        seq![EntryModel::Item { id: "empty"@, label: "Historial vacío"@, enabled: false }]
    } else {
        Seq::empty()
    };
    if history.is_empty() {
        push_entry(
            &mut out,
            MenuEntry::Item {
                id: "empty".to_owned(),
                label: "Historial vacío".to_owned(),
                enabled: false,
            },
        );
    }
    assert(models(out@) =~= head);
    let mut index: usize = 0;
    for it in iter: history.items()
        invariant
            index == iter.index(),
            items == history@,
            items.len() <= crate::history::MAX_ITEMS,
            iter.seq().len() == items.len(),
            forall|i: int| 0 <= i < items.len() ==> *(#[trigger] iter.seq()[i]) == items[i],
            models(out@) == head + Seq::new(index as nat, |i: int| history_entry(items[i], i)),
    {
        proof {
            assert(index < items.len());
        }
        push_entry(&mut out, history_entry_of(it, index));
        index += 1;
        assert(head + Seq::new(index as nat, |i: int| history_entry(items[i], i)) =~= (head
            + Seq::new((index - 1) as nat, |i: int| history_entry(items[i], i))).push(
            history_entry(items[index - 1], index - 1),
        ));
    }
    push_entry(&mut out, MenuEntry::Separator);
    let mut version_label: String = "Clipboard Saver ".to_owned();
    version_label.append(version);
    push_entry(
        &mut out,
        MenuEntry::Item { id: "version".to_owned(), label: version_label, enabled: false },
    );
    if let Some(tag) = pending_update {
        let mut update_label: String = "⬇ Actualizar a ".to_owned();
        update_label.append(tag);
        update_label.append(" y reiniciar");
        push_entry(
            &mut out,
            MenuEntry::Item { id: ID_UPDATE.to_owned(), label: update_label, enabled: true },
        );
    }
    push_entry(
        &mut out,
        MenuEntry::Check {
            id: ID_AUTOSTART.to_owned(),
            label: "Iniciar con el sistema".to_owned(),
            checked: autostart_enabled,
        },
    );
    let has_items = !history.is_empty();
    push_entry(
        &mut out,
        MenuEntry::Item {
            id: ID_CLEAR.to_owned(),
            label: "Limpiar historial".to_owned(),
            enabled: has_items,
        },
    );
    push_entry(
        &mut out,
        MenuEntry::Item { id: ID_QUIT.to_owned(), label: "Salir".to_owned(), enabled: true },
    );
    let ghost pend = match pending_update {
        Some(t) => Some(t@),
        None => None::<Seq<char>>,
    };
    assert(models(out@) =~= tray_layout(items, autostart_enabled, version@, pend));
    out
}

} // verus!

verus! {

/// The right-click menu of the panel app's tray icon: show, the autostart
/// toggle, clear, the update entry (enabled only when an update is
/// pending), the version and quit.
pub open spec fn panel_tray_layout(
    autostart_on: bool,
    version: Seq<char>,
    pending_update: Option<Seq<char>>,
) -> Seq<EntryModel> {
    seq![
        EntryModel::Item { id: "show"@, label: "Mostrar Clipboard Saver"@, enabled: true },
        EntryModel::Separator,
        EntryModel::Check {
            id: ID_AUTOSTART@,
            label: "Iniciar al iniciar sesión"@,
            checked: autostart_on,
        },
        EntryModel::Item { id: ID_CLEAR@, label: "Limpiar historial"@, enabled: true },
        match pending_update {
            Some(tag) => EntryModel::Item {
                id: ID_UPDATE@,
                label: "Actualizar a "@ + tag + " y reiniciar"@,
                enabled: true,
            },
            None => EntryModel::Item {
                id: ID_UPDATE@,
                label: "Buscar actualizaciones"@,
                enabled: false,
            },
        },
        EntryModel::Separator,
        EntryModel::Item { id: "version"@, label: "Clipboard Saver "@ + version, enabled: false },
        EntryModel::Item { id: ID_QUIT@, label: "Salir"@, enabled: true },
    ]
}

/// The entries of the panel app's tray menu, reflecting the autostart and
/// update state.
pub fn panel_tray_entries(autostart_on: bool, version: &str, pending_update: Option<&str>) -> (r:
    Vec<MenuEntry>)
    ensures
        models(r@) == panel_tray_layout(
            autostart_on,
            version@,
            match pending_update {
                Some(t) => Some(t@),
                None => None,
            },
        ),
{
    let mut out: Vec<MenuEntry> = Vec::new();
    push_entry(
        &mut out,
        MenuEntry::Item {
            id: "show".to_owned(),
            label: "Mostrar Clipboard Saver".to_owned(),
            enabled: true,
        },
    );
    push_entry(&mut out, MenuEntry::Separator);
    push_entry(
        &mut out,
        MenuEntry::Check {
            id: ID_AUTOSTART.to_owned(),
            label: "Iniciar al iniciar sesión".to_owned(),
            checked: autostart_on,
        },
    );
    push_entry(
        &mut out,
        MenuEntry::Item {
            id: ID_CLEAR.to_owned(),
            label: "Limpiar historial".to_owned(),
            enabled: true,
        },
    );
    let update = match pending_update {
        Some(tag) => {
            let mut label: String = "Actualizar a ".to_owned();
            label.append(tag);
            label.append(" y reiniciar");
            MenuEntry::Item { id: ID_UPDATE.to_owned(), label, enabled: true }
        },
        None => MenuEntry::Item {
            id: ID_UPDATE.to_owned(),
            label: "Buscar actualizaciones".to_owned(),
            enabled: false,
        },
    };
    push_entry(&mut out, update);
    push_entry(&mut out, MenuEntry::Separator);
    let mut version_label: String = "Clipboard Saver ".to_owned();
    version_label.append(version);
    push_entry(
        &mut out,
        MenuEntry::Item { id: "version".to_owned(), label: version_label, enabled: false },
    );
    push_entry(
        &mut out,
        MenuEntry::Item { id: ID_QUIT.to_owned(), label: "Salir".to_owned(), enabled: true },
    );
    let ghost pend = match pending_update {
        Some(t) => Some(t@),
        None => None::<Seq<char>>,
    };
    assert(models(out@) =~= panel_tray_layout(autostart_on, version@, pend));
    out
}

} // verus!
