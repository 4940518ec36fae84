//! Named registers for a modal editor, with clipboard integration.
//!
//! A [`store::Registers`] maps single-character names to bounded histories of
//! yank batches ([`register::Register`]), resolves a handful of reserved
//! names to synthesized or externally backed content, and keeps the two
//! clipboard-bound registers synchronized with the operating environment's
//! clipboards through an injected [`clipboard::ClipboardProvider`]. The
//! external clipboard is shared with the rest of the environment and may
//! change or fail at any moment, so a content-match check
//! ([`content::contents_are_saved`]) detects third-party modification before
//! any operation that depends on prior external state, and multi-value
//! batches survive a round trip through the flat external clipboard.

pub mod clipboard;
pub mod content;
pub mod decimal;
pub mod register;
pub mod store;
pub mod values;
