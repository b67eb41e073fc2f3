//! The text buffer: the document's bytes together with the index of its
//! lines. The only ways to change the bytes are `init`, `clear` and the two
//! splices, and each of them leaves the index in step with the bytes.

use crate::document::line_index::{line_starts, line_text, LineIndex};
use crate::encoding::{lemma_boundary_in_part, lemma_encode_utf8_concat};
use crate::error::EditError;
use vstd::prelude::*;
use vstd::utf8::*;

verus! {

/// `bytes` with `text` put in at offset `pos`.
pub open spec fn insert_bytes(bytes: Seq<u8>, pos: int, text: Seq<u8>) -> Seq<u8> {
    bytes.subrange(0, pos) + text + bytes.subrange(pos, bytes.len() as int)
}

/// `bytes` without the `len` bytes that start at offset `pos`.
pub open spec fn remove_bytes(bytes: Seq<u8>, pos: int, len: int) -> Seq<u8> {
    bytes.subrange(0, pos) + bytes.subrange(pos + len, bytes.len() as int)
}

/// Why text cannot be inserted at offset `pos` of `bytes`, if it cannot:
/// `pos` lies behind the end, or inside a character.
pub open spec fn insert_error(bytes: Seq<u8>, pos: int) -> Option<EditError> {
    if pos > bytes.len() {
        Some(EditError::OutOfRange)
    } else if !is_char_boundary(bytes, pos) {
        Some(EditError::InvalidBoundary)
    } else {
        None
    }
}

/// Why the `len` bytes from offset `pos` cannot be removed from `bytes`, if
/// they cannot: the range reaches behind the end, or one of its ends lies
/// inside a character.
pub open spec fn remove_error(bytes: Seq<u8>, pos: int, len: int) -> Option<EditError> {
    if pos + len > bytes.len() {
        Some(EditError::OutOfRange)
    } else if !is_char_boundary(bytes, pos) || !is_char_boundary(bytes, pos + len) {
        Some(EditError::InvalidBoundary)
    } else {
        None
    }
}

/// A text and the index of its lines.
pub struct TextDocument {
    line_offsets: LineIndex,
    text_buffer: String,
}

impl View for TextDocument {
    type V = Seq<u8>;

    /// The bytes of the text, which are its UTF-8 encoding.
    closed spec fn view(&self) -> Seq<u8> {
        encode_utf8(self.text_buffer@)
    }
}

impl TextDocument {
    /// True when the line index is the index of the text.
    pub closed spec fn wf(&self) -> bool {
        self.line_offsets.indexes(self@)
    }

    /// The bytes of a document are valid UTF-8.
    pub proof fn lemma_view_is_utf8(&self)
        ensures
            valid_utf8(self@),
    {
        encode_utf8_valid_utf8(self.text_buffer@);
    }

    /// An empty document: no bytes, and one line.
    pub fn new() -> (doc: Self)
        ensures
            doc.wf(),
            doc@ == Seq::<u8>::empty(),
    {
        TextDocument { line_offsets: LineIndex::new(), text_buffer: String::new() }
    }

    /// Brings the line index in step with the text.
    fn init_line_offsets(&mut self)
        ensures
            final(self).wf(),
            final(self)@ == old(self)@,
    {
        self.line_offsets.rebuild(self.text_buffer.as_str());
    }

    /// Replaces the whole content by `text`. Any text is accepted.
    pub fn init(&mut self, text: String)
        ensures
            final(self).wf(),
            final(self)@ == encode_utf8(text@),
    {
        self.text_buffer = text;
        self.init_line_offsets();
    }

    /// Empties the document: no bytes, and one line.
    pub fn clear(&mut self)
        ensures
            final(self).wf(),
            final(self)@ == Seq::<u8>::empty(),
    {
        self.text_buffer = String::new();
        self.line_offsets = LineIndex::new();
    }

    /// Inserts `text` at byte offset `pos`. Fails with `OutOfRange` when
    /// `pos` lies behind the end and with `InvalidBoundary` when it lies
    /// inside a character; a failed insert changes nothing.
    pub fn splice_insert(&mut self, pos: usize, text: &str) -> (r: Result<(), EditError>)
        requires
            old(self).wf(),
        ensures
            final(self).wf(),
            match insert_error(old(self)@, pos as int) {
                Some(e) => r == Err::<(), EditError>(e) && final(self)@ == old(self)@,
                None => r is Ok && final(self)@ == insert_bytes(
                    old(self)@,
                    pos as int,
                    encode_utf8(text@),
                ),
            },
    {
        let content = self.text_buffer.as_str();
        if pos > content.as_bytes().len() {
            return Err(EditError::OutOfRange);
        }
        if !content.is_char_boundary(pos) {
            return Err(EditError::InvalidBoundary);
        }
        let (head, tail) = content.split_at(pos);
        let mut joined = head.to_owned();
        joined.append(text);
        joined.append(tail);
        proof {
            lemma_encode_utf8_concat(head@, text@);
            lemma_encode_utf8_concat(head@ + text@, tail@);
        }
        self.text_buffer = joined;
        self.init_line_offsets();
        Ok(())
    }

    /// Removes `len` bytes from byte offset `pos` on and returns them. Fails
    /// with `OutOfRange` when the range reaches behind the end and with
    /// `InvalidBoundary` when one of its ends lies inside a character; a
    /// failed removal changes nothing.
    pub fn splice_delete(&mut self, pos: usize, len: usize) -> (r: Result<String, EditError>)
        requires
            old(self).wf(),
        ensures
            final(self).wf(),
            match remove_error(old(self)@, pos as int, len as int) {
                Some(e) => r == Err::<String, EditError>(e) && final(self)@ == old(self)@,
                None => r is Ok && encode_utf8(r->Ok_0@) == old(self)@.subrange(
                    pos as int,
                    pos + len,
                ) && final(self)@ == remove_bytes(old(self)@, pos as int, len as int),
            },
    {
        let content = self.text_buffer.as_str();
        let n: usize = content.as_bytes().len();
        if pos > n || len > n - pos {
            return Err(EditError::OutOfRange);
        }
        if !content.is_char_boundary(pos) || !content.is_char_boundary(pos + len) {
            return Err(EditError::InvalidBoundary);
        }
        proof {
            encode_utf8_valid_utf8(content@);
            is_char_boundary_start_end_of_seq(encode_utf8(content@));
            lemma_boundary_in_part(encode_utf8(content@), pos as int, n as int, pos + len);
        }
        let (head, rest) = content.split_at(pos);
        let (removed, tail) = rest.split_at(len);
        let mut joined = head.to_owned();
        joined.append(tail);
        let removed = removed.to_owned();
        proof {
            lemma_encode_utf8_concat(head@, tail@);
        }
        self.text_buffer = joined;
        self.init_line_offsets();
        Ok(removed)
    }

    /// The number of lines.
    pub fn line_count(&self) -> (count: usize)
        requires
            self.wf(),
        ensures
            count == line_starts(self@).len(),
    {
        self.line_offsets.line_count()
    }

    /// The text of line `lineno`, counted from 0, without its terminator;
    /// `None` when the document has no such line.
    pub fn getline(&self, lineno: usize) -> (r: Option<&str>)
        requires
            self.wf(),
        ensures
            match r {
                Some(text) => lineno < line_starts(self@).len() && encode_utf8(text@)
                    == line_text(self@, lineno as int),
                None => lineno >= line_starts(self@).len(),
            },
    {
        match self.line_offsets.line_text(self.text_buffer.as_str(), lineno) {
            Ok(text) => Some(text),
            Err(_) => None,
        }
    }

    /// The length of the text in bytes.
    pub fn len(&self) -> (n: usize)
        ensures
            n == self@.len(),
    {
        self.text_buffer.as_str().as_bytes().len()
    }

    /// The whole text.
    pub fn get_content(&self) -> (content: &str)
        ensures
            encode_utf8(content@) == self@,
    {
        self.text_buffer.as_str()
    }

    /// The index of the document's lines.
    pub fn line_index(&self) -> (index: &LineIndex)
        requires
            self.wf(),
        ensures
            index.indexes(self@),
    {
        &self.line_offsets
    }
}

} // verus!
