use vstd::prelude::*;

verus! {

/// The kind of an input/output failure, as `std::io::ErrorKind` names it.
#[derive(Debug, Clone, Copy, PartialEq, Eq, Structural)]
pub enum IoKind {
    /// An argument is out of range (`ErrorKind::InvalidInput`).
    InvalidInput,
    /// Data is malformed (`ErrorKind::InvalidData`).
    InvalidData,
    /// Any other failure (`ErrorKind::Other` and the remaining kinds).
    Other,
}

/// The library's error type. Variants that describe a failure of an outside
/// component (database, clipboard, image codec, file system, window system)
/// carry that component's message as text.
#[derive(Debug, PartialEq, Eq)]
pub enum AppError {
    /// A storage failure.
    Database(String),
    /// A schema migration failure.
    Migration(String),
    /// The system clipboard could not be read or written.
    Clipboard(String),
    /// No history entry has the requested id.
    ItemNotFound,
    /// The entry's kind cannot be written back to the clipboard.
    UnsupportedKind,
    /// An image could not be decoded.
    ImageFile(String),
    /// An input/output or encoding failure, of the given kind.
    Io(IoKind, String),
    /// A failure of the window system.
    Tauri(String),
}

} // verus!
