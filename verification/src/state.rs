//! The application state shared by commands and the ingest loop: the history
//! table, the image directory, the window that a paste goes back to, and the
//! self-write mark that keeps the program's own clipboard writes out of the
//! history.

use vstd::prelude::*;

use crate::clipboard_store::{hash_text, text_hash, ClipboardStore};
use crate::image_store::{hash_image, image_hash, ImageData};

verus! {

/// What [`AppState::take_self_write_if_matches`] does to the mark `pending`
/// for an event with hash `hash`: whether the event is swallowed, and the
/// mark afterwards. A matching mark swallows the event and is consumed;
/// otherwise nothing changes.
pub open spec fn take_spec(pending: Option<Seq<char>>, hash: Seq<char>) -> (bool, Option<Seq<char>>) {
    if pending == Some(hash) {
        (true, None)
    } else {
        (false, pending)
    }
}

/// The shared state.
pub struct AppState {
    /// The history table.
    pub db: ClipboardStore,
    /// Where image files are stored.
    pub image_dir: String,
    /// The foreground window before the launcher opened (a window handle), which a paste returns focus to.
    pub paste_target: Option<isize>,
    /// Hash of content that this program is about to write to the clipboard:
    /// the next clipboard event with that hash is not recorded.
    pub pending_self_write: Option<String>,
}

impl AppState {
    /// The state is valid: its table is.
    pub open spec fn wf(&self) -> bool {
        self.db.wf()
    }

    /// The self-write mark, as characters.
    pub open spec fn pending(&self) -> Option<Seq<char>> {
        self.pending_self_write.deep_view()
    }

    /// A state over `db` with no paste target and no self-write mark.
    pub fn new(db: ClipboardStore, image_dir: String) -> (s: Self)
        requires
            db.wf(),
        ensures
            s.wf(),
            s.db == db,
            s.image_dir == image_dir,
            s.paste_target is None,
            s.pending() is None,
    {
        AppState { db, image_dir, paste_target: None, pending_self_write: None }
    }

    /// The history table.
    pub fn db(&self) -> (r: &ClipboardStore)
        ensures
            *r == self.db,
    {
        &self.db
    }

    /// The image directory.
    pub fn image_dir(&self) -> (r: &str)
        ensures
            r@ == self.image_dir@,
    {
        self.image_dir.as_str()
    }

    /// Records the window that a paste returns focus to.
    pub fn remember_paste_target(&mut self, handle: Option<isize>)
        ensures
            *final(self) == (AppState { paste_target: handle, ..*old(self) }),
    {
        self.paste_target = handle;
    }

    /// The window that a paste returns focus to.
    pub fn paste_target(&self) -> (r: Option<isize>)
        ensures
            r == self.paste_target,
    {
        self.paste_target
    }

    /// Marks `hash` as this program's own write: the next clipboard event
    /// with that hash is swallowed.
    pub fn mark_self_write(&mut self, hash: String)
        ensures
            final(self).pending() == Some(hash@),
            final(self).db == old(self).db,
            final(self).image_dir == old(self).image_dir,
            final(self).paste_target == old(self).paste_target,
    {
        self.pending_self_write = Some(hash);
    }

    /// Clears the mark (when the clipboard write failed, so that the next
    /// real copy is not swallowed).
    pub fn clear_self_write(&mut self)
        ensures
            final(self).pending() is None,
            final(self).db == old(self).db,
            final(self).image_dir == old(self).image_dir,
            final(self).paste_target == old(self).paste_target,
    {
        self.pending_self_write = None;
    }

    /// Before an entry's text is written to the clipboard: marks the text's
    /// hash (the one the capture of that text computes) as this program's
    /// own write.
    pub fn begin_text_write(&mut self, text: &str)
        ensures
            final(self).pending() == Some(text_hash(text@)),
            final(self).db == old(self).db,
            final(self).image_dir == old(self).image_dir,
            final(self).paste_target == old(self).paste_target,
    {
        self.mark_self_write(hash_text(text));
    }

    /// Before an entry's image is written to the clipboard: marks the
    /// image's hash, over its edges as `u32`, as this program's own write.
    pub fn begin_image_write(&mut self, image: &ImageData)
        ensures
            final(self).pending() == Some(image_hash(image.width as u32, image.height as u32, image.bytes@)),
            final(self).db == old(self).db,
            final(self).image_dir == old(self).image_dir,
            final(self).paste_target == old(self).paste_target,
    {
        self.mark_self_write(hash_image(image.width as u32, image.height as u32, image.bytes.as_slice()));
    }

    /// After the clipboard write: a write that went through keeps the mark
    /// for the event it raises; a failed one clears it, so that the next real
    /// copy is not swallowed.
    pub fn after_clipboard_write(&mut self, written: bool)
        ensures
            written ==> final(self).pending() == old(self).pending(),
            !written ==> final(self).pending() is None,
            final(self).db == old(self).db,
            final(self).image_dir == old(self).image_dir,
            final(self).paste_target == old(self).paste_target,
    {
        if !written {
            self.clear_self_write();
        }
    }

    /// When the mark equals `hash`, consumes it and returns true; otherwise
    /// changes nothing and returns false.
    pub fn take_self_write_if_matches(&mut self, hash: &str) -> (r: bool)
        ensures
            (r, final(self).pending()) == take_spec(old(self).pending(), hash@),
            final(self).db == old(self).db,
            final(self).image_dir == old(self).image_dir,
            final(self).paste_target == old(self).paste_target,
    {
        let matches = match &self.pending_self_write {
            Some(p) => *p == hash.to_owned(),
            None => false,
        };
        if matches {
            self.pending_self_write = None;
        }
        matches
    }
}

/// A self-write mark swallows exactly one event with its hash: the first
/// such event is swallowed and consumes the mark, a second one is not.
pub proof fn law_self_write_swallows_once(hash: Seq<char>)
    ensures
        take_spec(Some(hash), hash) == (true, None::<Seq<char>>),
        take_spec(take_spec(Some(hash), hash).1, hash).0 == false,
{
}

/// An event with another hash is not swallowed and leaves the mark in place.
pub proof fn law_self_write_ignores_other_content(mark: Seq<char>, hash: Seq<char>)
    requires
        mark != hash,
    ensures
        take_spec(Some(mark), hash) == (false, Some(mark)),
{
}

/// Without a mark (never set, consumed, or cleared after a failed write) no
/// event is swallowed.
pub proof fn law_no_mark_swallows_nothing(hash: Seq<char>)
    ensures
        take_spec(None, hash) == (false, None::<Seq<char>>),
{
}

} // verus!
