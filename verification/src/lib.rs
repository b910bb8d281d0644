//! A markdown-aware text editor core: the text buffer, undo history,
//! selections and the markdown line styler, with their contracts.
pub mod text;
pub mod document;
pub mod history;
pub mod selection;
pub mod markdown;
pub mod textfmt;
pub mod menu;
pub mod editor;
pub mod search;
pub mod layout;
pub mod commands;
pub mod screen;
pub mod rows;
pub mod ansi;
pub mod preview;
pub mod code;
