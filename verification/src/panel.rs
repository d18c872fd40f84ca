//! What the panel UI shows of each entry: previews, relative times, URL
//! detection, and the state handed to the UI.
use vstd::prelude::*;
use vstd::string::*;

use crate::clock::{secs_since_epoch, system_now};
use crate::item::{ClipboardItem, ItemKind};
use crate::text::{
    chars_of, decimal, has_prefix_at, is_whitespace, is_ws, push_char, push_decimal, starts_with,
    trim, trim_bounds,
};

verus! {

pub const PREVIEW_CHARS: usize = 120;

/// One history entry as the panel UI consumes it.
pub struct ItemDto {
    pub id: u64,
    /// "text" or "image".
    pub kind: &'static str,
    pub preview: String,
    pub is_url: bool,
    pub ago: String,
    /// PNG data URL for image items.
    pub thumb: Option<String>,
}

/// Full panel state pushed to the UI.
pub struct StateDto {
    pub items: Vec<ItemDto>,
    pub autostart: bool,
    pub version: String,
    pub pending_update: Option<String>,
    pub max_items: usize,
}

/// Seconds elapsed from `copied_at` to `now`, 0 if `now` is earlier.
pub open spec fn elapsed(copied_at: u64, now: u64) -> nat {
    if now >= copied_at {
        (now - copied_at) as nat
    } else {
        0
    }
}

/// The relative time shown for an entry: "ahora" under a minute, then
/// whole minutes, hours or days.
pub open spec fn ago_text(copied_at: u64, now: u64) -> Seq<char> {
    let secs = elapsed(copied_at, now);
    if secs < 60 {
        "ahora"@
    } else if secs < 3600 {
        "hace "@ + decimal(secs / 60) + " min"@
    } else if secs < 86400 {
        "hace "@ + decimal(secs / 3600) + " h"@
    } else {
        "hace "@ + decimal(secs / 86400) + " d"@
    }
}

/// Whether a text reads as a link: trimmed, it starts with `http://`,
/// `https://` or `www.` and holds no whitespace.
pub open spec fn url_like(s: Seq<char>) -> bool {
    let t = trim(s);
    &&& starts_with(t, "http://"@) || starts_with(t, "https://"@) || starts_with(t, "www."@)
    &&& forall|i: int| 0 <= i < t.len() ==> !is_ws(#[trigger] t[i])
}

/// `s` with every line break (`\n` or `\r`) replaced by `sub`.
pub open spec fn flatten_lines(s: Seq<char>, sub: char) -> Seq<char> {
    Seq::new(s.len(), |i: int| if s[i] == '\n' || s[i] == '\r' { sub } else { s[i] })
}

/// The panel preview of a text: trimmed, line breaks turned into spaces,
/// cut to [`PREVIEW_CHARS`] characters with an ellipsis when longer.
pub open spec fn panel_preview(s: Seq<char>) -> Seq<char> {
    let one = flatten_lines(trim(s), ' ');
    if one.len() > PREVIEW_CHARS {
        one.take(PREVIEW_CHARS as int).push('…')
    } else {
        one
    }
}

/// A panel preview holds at most [`PREVIEW_CHARS`] characters of text plus
/// the ellipsis.
pub proof fn lemma_panel_preview_len(s: Seq<char>)
    ensures
        panel_preview(s).len() <= PREVIEW_CHARS + 1,
{
}

/// The panel preview starts at the beginning of the trimmed text: its first
/// characters are those of the trimmed text, up to [`PREVIEW_CHARS`] of them,
/// each line break shown as a space. A longer text is cut there and ends in
/// an ellipsis; a shorter one is shown whole.
pub proof fn lemma_panel_preview_prefix(s: Seq<char>)
    ensures
        ({
            let t = trim(s);
            let shown = if t.len() > PREVIEW_CHARS {
                PREVIEW_CHARS as int
            } else {
                t.len() as int
            };
            &&& forall|k: int|
                0 <= k < shown ==> #[trigger] panel_preview(s)[k] == if t[k] == '\n' || t[k]
                    == '\r' {
                    ' '
                } else {
                    t[k]
                }
            &&& t.len() > PREVIEW_CHARS ==> panel_preview(s).len() == PREVIEW_CHARS + 1
                && panel_preview(s)[PREVIEW_CHARS as int] == '…'
            &&& t.len() <= PREVIEW_CHARS ==> panel_preview(s).len() == t.len()
        }),
{
}

/// A text is a link only when its trimmed form holds no whitespace at all:
/// a line break or a tab inside it rules it out as surely as a space.
pub proof fn lemma_url_has_no_whitespace(s: Seq<char>, i: int)
    requires
        0 <= i < trim(s).len(),
        is_ws(trim(s)[i]),
    ensures
        !url_like(s),
{
}

/// A link, trimmed, begins with `http://`, `https://` or `www.`.
pub proof fn lemma_url_scheme(s: Seq<char>)
    requires
        url_like(s),
    ensures
        ({
            let t = trim(s);
            ||| t.len() >= 7 && t.take(7) == "http://"@
            ||| t.len() >= 8 && t.take(8) == "https://"@
            ||| t.len() >= 4 && t.take(4) == "www."@
        }),
{
    reveal_strlit("http://");
    reveal_strlit("https://");
    reveal_strlit("www.");
}

/// The caption of an image entry.
pub open spec fn image_caption(width: usize, height: usize) -> Seq<char> {
    "Imagen "@ + decimal(width as nat) + "×"@ + decimal(height as nat)
}

/// Seconds since the Unix epoch, or 0 when the clock reads earlier than it.
pub fn unix_now() -> u64 {
    match secs_since_epoch(&system_now()) {
        Some(s) => s,
        None => 0,
    }
}

/// How long ago `copied_at` was, seen from `now`, in Spanish.
pub fn time_ago(copied_at: u64, now: u64) -> (r: String)
    ensures
        r@ == ago_text(copied_at, now),
{
    let secs: u64 = if now >= copied_at {
        now - copied_at
    } else {
        0
    };
    if secs <= 59 {
        return "ahora".to_owned();
    }
    let mut s: String = "hace ".to_owned();
    if secs <= 3_599 {
        push_decimal(&mut s, secs / 60);
        s.append(" min");
    } else if secs <= 86_399 {
        push_decimal(&mut s, secs / 3_600);
        s.append(" h");
    } else {
        push_decimal(&mut s, secs / 86_400);
        s.append(" d");
    }
    s
}

/// Whether `text` looks like a URL.
pub fn is_url(text: &str) -> (r: bool)
    ensures
        r == url_like(text@),
{
    let v = chars_of(text);
    let (lo, hi) = trim_bounds(&v);
    let ghost t = v@.subrange(lo as int, hi as int);
    let prefixed = has_prefix_at(&v, lo, hi, "http://") || has_prefix_at(&v, lo, hi, "https://")
        || has_prefix_at(&v, lo, hi, "www.");
    if !prefixed {
        return false;
    }
    let mut i = lo;
    while i < hi
        invariant
            lo <= i <= hi <= v@.len(),
            t == v@.subrange(lo as int, hi as int),
            t == trim(text@),
            forall|j: int| 0 <= j < i - lo ==> !is_ws(#[trigger] t[j]),
        decreases hi - i,
    {
        if is_whitespace(v[i]) {
            assert(t[i - lo] == v@[i as int]);
            return false;
        }
        i += 1;
    }
    true
}

/// One-line-ish preview: trimmed, newlines collapsed, char-boundary truncated.
pub fn preview(text: &str) -> (r: String)
    ensures
        r@ == panel_preview(text@),
{
    let v = chars_of(text);
    let (lo, hi) = trim_bounds(&v);
    let ghost one = flatten_lines(v@.subrange(lo as int, hi as int), ' ');
    let take = if hi - lo > PREVIEW_CHARS {
        PREVIEW_CHARS
    } else {
        hi - lo
    };
    let mut out = String::new();
    let mut i: usize = 0;
    while i < take
        invariant
            lo <= hi <= v@.len(),
            take <= hi - lo,
            one == flatten_lines(v@.subrange(lo as int, hi as int), ' '),
            i <= take,
            out@ == one.take(i as int),
        decreases take - i,
    {
        let c = v[lo + i];
        let c = if c == '\n' || c == '\r' {
            ' '
        } else {
            c
        };
        push_char(&mut out, c);
        i += 1;
        assert(out@ =~= one.take(i as int));
    }
    if hi - lo > PREVIEW_CHARS {
        push_char(&mut out, '…');
    } else {
        assert(one.take(i as int) =~= one);
    }
    out
}

/// The panel's view of one entry, with `thumb` as the image thumbnail and
/// the relative time taken from `now`.
pub fn item_dto(item: &ClipboardItem, thumb: Option<String>, now: u64) -> (r: ItemDto)
    ensures
        r.id == item.id,
        r.ago@ == ago_text(item.copied_at, now),
        match item.kind {
            ItemKind::Text(t) => {
                &&& r.kind@ == "text"@
                &&& r.preview@ == panel_preview(t@)
                &&& r.is_url == url_like(t@)
                &&& r.thumb is None
            },
            ItemKind::Image { width, height, .. } => {
                &&& r.kind@ == "image"@
                &&& r.preview@ == image_caption(width, height)
                &&& !r.is_url
                &&& r.thumb == thumb
            },
        },
{
    match &item.kind {
        ItemKind::Text(text) => ItemDto {
            id: item.id,
            kind: "text",
            preview: preview(text.as_str()),
            is_url: is_url(text.as_str()),
            ago: time_ago(item.copied_at, now),
            thumb: None,
        },
        ItemKind::Image { width, height, .. } => {
            let mut caption: String = "Imagen ".to_owned();
            push_decimal(&mut caption, *width as u64);
            caption.append("×");
            push_decimal(&mut caption, *height as u64);
            ItemDto {
                id: item.id,
                kind: "image",
                preview: caption,
                is_url: false,
                ago: time_ago(item.copied_at, now),
                thumb,
            }
        },
    }
}

} // verus!
