//! What the clipboard watcher decides: whether the pasteboard changed since
//! the last look, and which captured content is worth recording.
use std::path::PathBuf;
use vstd::prelude::*;

use crate::text::{chars_of, trim, trim_bounds};

verus! {

/// `std::path::PathBuf`, carried through opaquely.
#[verifier::external_type_specification]
#[verifier::external_body]
pub struct ExPathBuf(PathBuf);

/// One element of a multi-item clipboard write. Images carry both the
/// stored PNG file path and its bytes so target apps can paste either
/// files (Finder-style) or image data.
pub enum PasteItem {
    Text(String),
    Image { path: PathBuf, png: Vec<u8> },
}

/// Content read from the clipboard after a change was detected.
pub enum Captured {
    Text(String),
    Image { width: usize, height: usize, rgba: Vec<u8> },
}

/// Remembers the pasteboard's change count between polls. macOS has no
/// change notification, so the watcher compares counts and reads content
/// only when the count moved.
pub struct ChangeTracker {
    last_count: isize,
}

impl ChangeTracker {
    /// The change count seen last.
    pub closed spec fn last(&self) -> isize {
        self.last_count
    }

    /// Starts from the pasteboard's current count: what is on the clipboard
    /// at startup is not captured.
    pub fn new(count: isize) -> (r: Self)
        ensures
            r.last() == count,
    {
        ChangeTracker { last_count: count }
    }

    /// Looks at the current count: true when it differs from the last one
    /// seen, which becomes `count`.
    pub fn observe(&mut self, count: isize) -> (changed: bool)
        ensures
            changed == (count != old(self).last()),
            final(self).last() == count,
    {
        if count == self.last_count {
            return false;
        }
        self.last_count = count;
        true
    }

    /// Takes `count` as seen without reporting a change: after the app
    /// writes the pasteboard itself, so its own write is not captured.
    pub fn sync(&mut self, count: isize)
        ensures
            final(self).last() == count,
    {
        self.last_count = count;
    }
}

/// The capture of a text read from the clipboard: none when it is empty or
/// only whitespace.
pub fn captured_text(text: String) -> (r: Option<Captured>)
    ensures
        trim(text@).len() == 0 ==> r is None,
        trim(text@).len() > 0 ==> r == Some(Captured::Text(text)),
{
    let v = chars_of(text.as_str());
    let (lo, hi) = trim_bounds(&v);
    if lo == hi {
        None
    } else {
        Some(Captured::Text(text))
    }
}

} // verus!
