//! Clipboard entries and the content hash used to recognise repeated images.
use vstd::prelude::*;

verus! {

/// A single entry captured from the clipboard.
#[derive(Clone, Debug, PartialEq, Eq)]
pub struct ClipboardItem {
    pub id: u64,
    pub kind: ItemKind,
    /// Unix timestamp (seconds) of when the item was captured.
    pub copied_at: u64,
}

/// What an entry holds: a text, or an image stored as a PNG file.
#[derive(Clone, Debug, PartialEq, Eq)]
pub enum ItemKind {
    Text(String),
    Image {
        width: usize,
        height: usize,
        /// PNG file name inside the storage `images/` directory.
        png: String,
        /// FNV-1a hash of the raw RGBA bytes, used for deduplication.
        hash: u64,
    },
}

impl ItemKind {
    /// A copy of this kind, equal to it.
    pub fn duplicate(&self) -> (r: ItemKind)
        ensures
            r == *self,
    {
        match self {
            ItemKind::Text(t) => ItemKind::Text(t.clone()),
            ItemKind::Image { width, height, png, hash } => ItemKind::Image {
                width: *width,
                height: *height,
                png: png.clone(),
                hash: *hash,
            },
        }
    }
}

/// The PNG file name of an image entry; none for a text entry.
pub open spec fn png_of(item: ClipboardItem) -> Option<String> {
    match item.kind {
        ItemKind::Image { png, .. } => Some(png),
        ItemKind::Text(_) => None,
    }
}

impl ClipboardItem {
    /// A copy of this item, equal to it.
    pub fn duplicate(&self) -> (r: ClipboardItem)
        ensures
            r == *self,
    {
        ClipboardItem { id: self.id, kind: self.kind.duplicate(), copied_at: self.copied_at }
    }

    /// The PNG file behind an image item; `None` for text.
    pub fn png_file(&self) -> (r: Option<&str>)
        ensures
            match png_of(*self) {
                Some(p) => r matches Some(f) && f@ == p@,
                None => r is None,
            },
    {
        match &self.kind {
            ItemKind::Image { png, .. } => Some(png.as_str()),
            ItemKind::Text(_) => None,
        }
    }
}

pub const FNV_OFFSET: u64 = 0xcbf2_9ce4_8422_2325;

pub const FNV_PRIME: u64 = 0x0000_0100_0000_01b3;

/// One FNV-1a round: xor in the byte, then multiply modulo 2^64.
pub open spec fn fnv_step(h: u64, b: u8) -> u64 {
    (((h ^ (b as u64)) as nat * FNV_PRIME as nat) % 0x1_0000_0000_0000_0000nat) as u64
}

/// The 64-bit FNV-1a hash of `bytes`.
pub open spec fn fnv1a_spec(bytes: Seq<u8>) -> u64
    decreases bytes.len(),
{
    if bytes.len() == 0 {
        FNV_OFFSET
    } else {
        fnv_step(fnv1a_spec(bytes.drop_last()), bytes.last())
    }
}

/// FNV-1a 64-bit hash. Enough to deduplicate identical image copies
/// without pulling in a hashing dependency.
pub fn fnv1a(bytes: &[u8]) -> (r: u64)
    ensures
        r == fnv1a_spec(bytes@),
{
    let mut hash: u64 = FNV_OFFSET;
    let mut i: usize = 0;
    while i < bytes.len()
        invariant
            i <= bytes@.len(),
            hash == fnv1a_spec(bytes@.take(i as int)),
        decreases bytes@.len() - i,
    {
        hash = hash ^ (bytes[i] as u64);
        hash = hash.wrapping_mul(FNV_PRIME);
        assert(bytes@.take(i + 1).drop_last() =~= bytes@.take(i as int));
        i += 1;
    }
    assert(bytes@.take(i as int) =~= bytes@);
    hash
}

} // verus!
