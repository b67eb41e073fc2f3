//! The editable document core of a small text editor: a text buffer with a
//! line-start index, changed only through reversible commands that a manager
//! keeps on an undo and a redo stack. Beside it, `display` computes what the
//! editor's window shows of a document.

pub mod command;
pub mod display;
pub mod document;
pub mod encoding;
pub mod error;
