//! Clipboard history for a desktop launcher: the history table and its queries,
//! the image pipeline's pure parts, the ingest decisions and the launcher's
//! open/close decisions, each with a contract proved by Verus.

pub mod error;
pub mod digest;
pub mod text;
pub mod clipboard_store;
pub mod selection;
pub mod history_laws;
pub mod image_store;
pub mod state;
pub mod platform;
pub mod launcher;
pub mod clipboard_ingest;
pub mod commands;
