//! Platform capabilities: what the clipboard monitor captures, and the
//! foreground-window and key-injection operations of platforms without
//! window management (only Windows has real ones).

use vstd::prelude::*;

use crate::image_store::ImageData;

verus! {

/// One clipboard update seen by the monitor. When text and an image are both
/// on the clipboard only the text is taken, so an update is one or the other.
#[derive(Debug)]
pub enum ClipboardCapture {
    /// Non-empty text.
    Text(String),
    /// A bitmap as RGBA8 pixels.
    Image(ImageData),
}

/// The foreground window: none on platforms without window management.
pub fn foreground_window() -> (r: Option<isize>)
    ensures
        r is None,
{
    None
}

/// Brings a window to the foreground: never succeeds on platforms without
/// window management.
pub fn focus_window(handle: isize) -> (r: bool)
    ensures
        !r,
{
    false
}

/// Injects Ctrl+V: does nothing on platforms without key injection.
pub fn send_ctrl_v() {
}


/// How many times the monitor tries to read the clipboard for one update
/// while another process holds it.
pub const READ_RETRIES: u32 = 3;

/// Back-off before retry number `attempt + 1`, in milliseconds: 30 ms times
/// the attempt number.
pub const READ_RETRY_DELAY_MS: u64 = 30;

/// The outcome of reading the clipboard's text.
#[derive(Debug)]
pub enum TextRead {
    /// Text was read (possibly empty).
    Text(String),
    /// The clipboard holds no text.
    Unavailable,
    /// Reading failed (the clipboard is busy, for one).
    Failed,
}

/// The outcome of reading the clipboard's image.
#[derive(Debug)]
pub enum ImageRead {
    /// An image was read.
    Image(ImageData),
    /// The clipboard holds no image.
    Unavailable,
    /// Reading failed.
    Failed,
}

/// What the monitor does next while reading one clipboard update.
#[derive(Debug)]
pub enum ReadStep {
    /// Reading is over: this is the capture (none for, say, a list of files).
    Done(Option<ClipboardCapture>),
    /// Read the image next.
    ReadImage,
    /// This attempt failed: wait and start over, if attempts are left.
    Retry,
}

/// After the text read: non-empty text is the capture (text wins over an
/// image on the clipboard); empty or absent text sends the monitor on to
/// the image; a failure ends the attempt.
pub fn after_text_read(read: TextRead) -> (r: ReadStep)
    ensures
        match read {
            TextRead::Text(t) => if t@.len() > 0 {
                r matches ReadStep::Done(Some(ClipboardCapture::Text(c))) && c@ == t@
            } else {
                r is ReadImage
            },
            TextRead::Unavailable => r is ReadImage,
            TextRead::Failed => r is Retry,
        },
{
    match read {
        TextRead::Text(t) => {
            if t.as_str().is_empty() {
                ReadStep::ReadImage
            } else {
                ReadStep::Done(Some(ClipboardCapture::Text(t)))
            }
        },
        TextRead::Unavailable => ReadStep::ReadImage,
        TextRead::Failed => ReadStep::Retry,
    }
}

/// After the image read: an image is the capture; no image means nothing to
/// capture; a failure ends the attempt.
pub fn after_image_read(read: ImageRead) -> (r: ReadStep)
    ensures
        match read {
            ImageRead::Image(i) => r matches ReadStep::Done(Some(ClipboardCapture::Image(c))) && c == i,
            ImageRead::Unavailable => r matches ReadStep::Done(None),
            ImageRead::Failed => r is Retry,
        },
{
    match read {
        ImageRead::Image(i) => ReadStep::Done(Some(ClipboardCapture::Image(i))),
        ImageRead::Unavailable => ReadStep::Done(None),
        ImageRead::Failed => ReadStep::Retry,
    }
}

/// The back-off after failed attempt number `attempt` (counting from 1), in
/// milliseconds.
pub fn retry_delay_ms(attempt: u32) -> (r: u64)
    requires
        1 <= attempt <= READ_RETRIES,
    ensures
        r == READ_RETRY_DELAY_MS * attempt,
{
    READ_RETRY_DELAY_MS * attempt as u64
}

/// What the monitor does after a failed attempt to read the clipboard.
#[derive(Debug, Clone, Copy, PartialEq, Eq, Structural)]
pub struct Backoff {
    /// How long to wait first, in milliseconds.
    pub delay_ms: u64,
    /// The attempt to make after the wait; `None` when none is left and the
    /// update is given up.
    pub next_attempt: Option<u32>,
}

/// After failed attempt number `attempt` (counting from 1): wait
/// [`retry_delay_ms`], then try again until [`READ_RETRIES`] attempts have
/// been made.
pub fn after_failed_attempt(attempt: u32) -> (r: Backoff)
    requires
        1 <= attempt <= READ_RETRIES,
    ensures
        r.delay_ms == READ_RETRY_DELAY_MS * attempt,
        r.next_attempt == if attempt < READ_RETRIES { Some((attempt + 1) as u32) } else { None::<u32> },
{
    let delay_ms = retry_delay_ms(attempt);
    let next_attempt = if attempt < READ_RETRIES { Some(attempt + 1) } else { None };
    Backoff { delay_ms, next_attempt }
}

/// The clipboard's update counter as last seen by the monitor. One copy can
/// raise several update notifications; only a changed counter is a new
/// update.
#[derive(Debug, Clone, Copy, PartialEq, Eq, Structural)]
pub struct UpdateDebounce {
    /// The counter value last seen.
    pub last_sequence: u32,
}

impl UpdateDebounce {
    /// Starts from the counter's current value.
    pub fn new(sequence: u32) -> (r: Self)
        ensures
            r.last_sequence == sequence,
    {
        UpdateDebounce { last_sequence: sequence }
    }

    /// A notification arrived with the counter at `sequence`: returns whether
    /// it is a new update, and remembers `sequence`.
    pub fn observe(&mut self, sequence: u32) -> (r: bool)
        ensures
            r == (sequence != old(self).last_sequence),
            final(self).last_sequence == sequence,
    {
        let fresh = sequence != self.last_sequence;
        self.last_sequence = sequence;
        fresh
    }
}

} // verus!
