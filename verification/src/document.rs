//! The text buffer, the index of its lines, and the editable document.

pub mod editable;
pub mod line_index;
pub mod text_document;
