//! Verified core of the Ferrite markdown editor: cursor and selection model,
//! rope-backed text buffer, undo/redo history, keyboard editing logic,
//! multi-cursor editing, find and replace, snippets, keyboard shortcut
//! configuration, the rules that keep stored settings in range, and the
//! bookkeeping of the cache of laid-out lines.

pub mod cursor;
pub mod text;
pub mod buffer;
pub mod history;
pub mod settings;
pub mod snippets;
pub mod input;
pub mod line_cache;
pub mod editor;
pub mod persistence;
pub mod settings_rules;
