//! Reversible edits of a text document.
//!
//! A command is a value that can be executed against a document and later
//! inverted. What a command does is stated over its mathematical content,
//! an [`Edit`]: `applied` says what executing it makes of a text, `inverted`
//! what inverting it makes of a text, and `executed_on` what the command has
//! captured once it has run.

use crate::document::text_document::{
    insert_bytes,
    insert_error,
    remove_bytes,
    remove_error,
    TextDocument,
};
use crate::encoding::{lemma_boundary_at_join, lemma_boundary_in_part, lemma_split_valid};
use crate::error::EditError;
use vstd::prelude::*;
use vstd::utf8::*;

verus! {

/// The mathematical content of a command.
pub enum Edit {
    /// Puts `text` in at offset `pos`. `executed` records that the command
    /// has run.
    Insert { pos: int, text: Seq<u8>, executed: bool },
    /// Takes out the `len` bytes that start at offset `pos`. `removed` holds
    /// the bytes that the last run took out.
    Delete { pos: int, len: int, removed: Option<Seq<u8>> },
}

impl Edit {
    /// True of the content of every command: offsets and lengths are not
    /// negative, and the texts are valid UTF-8.
    pub open spec fn wf(self) -> bool {
        match self {
            Edit::Insert { pos, text, executed } => 0 <= pos && valid_utf8(text),
            Edit::Delete { pos, len, removed } => 0 <= pos && 0 <= len && (removed matches Some(
                bytes,
            ) ==> valid_utf8(bytes)),
        }
    }

    /// What executing the command makes of `bytes`: the new text, or the
    /// error with which it is refused.
    pub open spec fn applied(self, bytes: Seq<u8>) -> Result<Seq<u8>, EditError> {
        match self {
            Edit::Insert { pos, text, executed } => match insert_error(bytes, pos) {
                Some(e) => Err(e),
                None => Ok(insert_bytes(bytes, pos, text)),
            },
            Edit::Delete { pos, len, removed } => match remove_error(bytes, pos, len) {
                Some(e) => Err(e),
                None => Ok(remove_bytes(bytes, pos, len)),
            },
        }
    }

    /// The command after it has been executed on `bytes` with success: an
    /// insert is marked as executed, a delete holds the bytes it took out.
    pub open spec fn executed_on(self, bytes: Seq<u8>) -> Edit {
        match self {
            Edit::Insert { pos, text, executed } => Edit::Insert { pos, text, executed: true },
            Edit::Delete { pos, len, removed } => Edit::Delete {
                pos,
                len,
                removed: Some(bytes.subrange(pos, pos + len)),
            },
        }
    }

    /// What inverting the command makes of `bytes`: the new text, or the
    /// error with which it is refused. A command that has never been
    /// executed is refused with `NotExecuted`. An insert is inverted by
    /// removing as many bytes as it put in, a delete by putting back the
    /// bytes it took out.
    pub open spec fn inverted(self, bytes: Seq<u8>) -> Result<Seq<u8>, EditError> {
        match self {
            Edit::Insert { pos, text, executed } => if !executed {
                Err(EditError::NotExecuted)
            } else {
                match remove_error(bytes, pos, text.len() as int) {
                    Some(e) => Err(e),
                    None => Ok(remove_bytes(bytes, pos, text.len() as int)),
                }
            },
            Edit::Delete { pos, len, removed } => match removed {
                None => Err(EditError::NotExecuted),
                Some(text) => match insert_error(bytes, pos) {
                    Some(e) => Err(e),
                    None => Ok(insert_bytes(bytes, pos, text)),
                },
            },
        }
    }
}

/// A reversible edit of a document.
pub trait Command {
    /// The mathematical content of the command.
    spec fn edit(&self) -> Edit;

    /// The content of a command is always well-formed.
    proof fn lemma_edit_wf(&self)
        ensures
            self.edit().wf(),
    ;

    /// Applies the edit to `data`. On success the command has captured what
    /// `invert` needs. On failure neither the document nor the command has
    /// changed.
    fn execute(&mut self, data: &mut TextDocument) -> (r: Result<(), EditError>)
        requires
            old(data).wf(),
        ensures
            final(data).wf(),
            match old(self).edit().applied(old(data)@) {
                Ok(bytes) => {
                    &&& r is Ok
                    &&& final(data)@ == bytes
                    &&& final(self).edit() == old(self).edit().executed_on(old(data)@)
                },
                Err(e) => {
                    &&& r == Err::<(), EditError>(e)
                    &&& final(data)@ == old(data)@
                    &&& final(self).edit() == old(self).edit()
                },
            },
    ;

    /// Applies the opposite of the edit to `data`. On failure the document
    /// has not changed.
    fn invert(&self, data: &mut TextDocument) -> (r: Result<(), EditError>)
        requires
            old(data).wf(),
        ensures
            final(data).wf(),
            match self.edit().inverted(old(data)@) {
                Ok(bytes) => r is Ok && final(data)@ == bytes,
                Err(e) => r == Err::<(), EditError>(e) && final(data)@ == old(data)@,
            },
    ;
}

/// Inserts a text at a byte offset.
pub struct InsertCommand {
    pub pos: usize,
    pub text: String,
    executed: bool,
}

impl InsertCommand {
    /// A command that inserts `text` at offset `pos`; it has not run yet.
    pub fn new(pos: usize, text: String) -> (cmd: Self)
        ensures
            cmd.edit() == (Edit::Insert {
                pos: pos as int,
                text: encode_utf8(text@),
                executed: false,
            }),
    {
        InsertCommand { pos, text, executed: false }
    }
}

impl Command for InsertCommand {
    closed spec fn edit(&self) -> Edit {
        Edit::Insert {
            pos: self.pos as int,
            text: encode_utf8(self.text@),
            executed: self.executed,
        }
    }

    proof fn lemma_edit_wf(&self) {
        encode_utf8_valid_utf8(self.text@);
    }

    fn execute(&mut self, data: &mut TextDocument) -> (r: Result<(), EditError>) {
        match data.splice_insert(self.pos, self.text.as_str()) {
            Ok(()) => {
                self.executed = true;
                Ok(())
            },
            Err(e) => Err(e),
        }
    }

    fn invert(&self, data: &mut TextDocument) -> (r: Result<(), EditError>) {
        if !self.executed {
            return Err(EditError::NotExecuted);
        }
        match data.splice_delete(self.pos, self.text.as_str().as_bytes().len()) {
            Ok(_) => Ok(()),
            Err(e) => Err(e),
        }
    }
}

/// Deletes a number of bytes from a byte offset on, and keeps what it took
/// out so that it can be put back.
pub struct DeleteCommand {
    pub pos: usize,
    pub len: usize,
    removed: Option<String>,
}

impl DeleteCommand {
    /// A command that deletes `len` bytes from offset `pos` on; it has not
    /// run yet.
    pub fn new(pos: usize, len: usize) -> (cmd: Self)
        ensures
            cmd.edit() == (Edit::Delete { pos: pos as int, len: len as int, removed: None }),
    {
        DeleteCommand { pos, len, removed: None }
    }
}

impl Command for DeleteCommand {
    closed spec fn edit(&self) -> Edit {
        Edit::Delete {
            pos: self.pos as int,
            len: self.len as int,
            removed: match self.removed {
                Some(text) => Some(encode_utf8(text@)),
                None => None,
            },
        }
    }

    proof fn lemma_edit_wf(&self) {
        if let Some(text) = self.removed {
            encode_utf8_valid_utf8(text@);
        }
    }

    fn execute(&mut self, data: &mut TextDocument) -> (r: Result<(), EditError>) {
        match data.splice_delete(self.pos, self.len) {
            Ok(removed) => {
                self.removed = Some(removed);
                Ok(())
            },
            Err(e) => Err(e),
        }
    }

    fn invert(&self, data: &mut TextDocument) -> (r: Result<(), EditError>) {
        match &self.removed {
            None => Err(EditError::NotExecuted),
            Some(text) => data.splice_insert(self.pos, text.as_str()),
        }
    }
}

/// Any of the commands, so that one history can hold inserts and deletes.
pub enum EditCommand {
    Insert(InsertCommand),
    Delete(DeleteCommand),
}

impl Command for EditCommand {
    open spec fn edit(&self) -> Edit {
        match self {
            EditCommand::Insert(cmd) => cmd.edit(),
            EditCommand::Delete(cmd) => cmd.edit(),
        }
    }

    proof fn lemma_edit_wf(&self) {
        match self {
            EditCommand::Insert(cmd) => cmd.lemma_edit_wf(),
            EditCommand::Delete(cmd) => cmd.lemma_edit_wf(),
        }
    }

    fn execute(&mut self, data: &mut TextDocument) -> (r: Result<(), EditError>) {
        match self {
            EditCommand::Insert(cmd) => cmd.execute(data),
            EditCommand::Delete(cmd) => cmd.execute(data),
        }
    }

    fn invert(&self, data: &mut TextDocument) -> (r: Result<(), EditError>) {
        match self {
            EditCommand::Insert(cmd) => cmd.invert(data),
            EditCommand::Delete(cmd) => cmd.invert(data),
        }
    }
}

/// An insert at a valid offset, followed by its own inversion, gives back
/// the text as it was, byte for byte.
pub proof fn lemma_insert_then_invert_restores(bytes: Seq<u8>, pos: int, text: Seq<u8>)
    requires
        valid_utf8(bytes),
        valid_utf8(text),
        insert_error(bytes, pos) is None,
    ensures
        (Edit::Insert { pos, text, executed: false }).applied(bytes) == Ok::<
            Seq<u8>,
            EditError,
        >(insert_bytes(bytes, pos, text)),
        (Edit::Insert { pos, text, executed: false }).executed_on(bytes).inverted(
            insert_bytes(bytes, pos, text),
        ) == Ok::<Seq<u8>, EditError>(bytes),
{
    lemma_insert_undone_by_remove(bytes, pos, text);
}

/// A delete of a valid range, followed by its own inversion, gives back the
/// text as it was, byte for byte: the bytes that were taken out are the
/// bytes that are put back.
pub proof fn lemma_delete_then_invert_restores(bytes: Seq<u8>, pos: int, len: int)
    requires
        valid_utf8(bytes),
        0 <= pos,
        0 <= len,
        remove_error(bytes, pos, len) is None,
    ensures
        (Edit::Delete { pos, len, removed: None }).applied(bytes) == Ok::<Seq<u8>, EditError>(
            remove_bytes(bytes, pos, len),
        ),
        (Edit::Delete { pos, len, removed: None }).executed_on(bytes) == (Edit::Delete {
            pos,
            len,
            removed: Some(bytes.subrange(pos, pos + len)),
        }),
        (Edit::Delete { pos, len, removed: None }).executed_on(bytes).inverted(
            remove_bytes(bytes, pos, len),
        ) == Ok::<Seq<u8>, EditError>(bytes),
{
    lemma_remove_undone_by_insert(bytes, pos, len);
}

/// Whatever a command held before, once it has been executed with success
/// its inversion gives back the text as it was before the execution.
pub proof fn lemma_execute_then_invert_restores(edit: Edit, bytes: Seq<u8>)
    requires
        edit.wf(),
        valid_utf8(bytes),
        edit.applied(bytes) is Ok,
    ensures
        valid_utf8(edit.applied(bytes)->Ok_0),
        edit.executed_on(bytes).wf(),
        edit.executed_on(bytes).inverted(edit.applied(bytes)->Ok_0) == Ok::<Seq<u8>, EditError>(
            bytes,
        ),
{
    match edit {
        Edit::Insert { pos, text, executed } => {
            lemma_insert_undone_by_remove(bytes, pos, text);
        },
        Edit::Delete { pos, len, removed } => {
            lemma_remove_undone_by_insert(bytes, pos, len);
        },
    }
}

/// A command that has been inverted can be executed again on the text that
/// its inversion gave back, with the result of its first execution: what a
/// command has captured plays no part in what executing it does.
pub proof fn lemma_execute_ignores_captured_state(edit: Edit, before: Seq<u8>, bytes: Seq<u8>)
    ensures
        edit.executed_on(before).applied(bytes) == edit.applied(bytes),
        edit.executed_on(before).executed_on(bytes) == edit.executed_on(bytes),
{
}

/// Removing the inserted bytes undoes an insert.
proof fn lemma_insert_undone_by_remove(bytes: Seq<u8>, pos: int, text: Seq<u8>)
    requires
        valid_utf8(bytes),
        valid_utf8(text),
        insert_error(bytes, pos) is None,
    ensures
        valid_utf8(insert_bytes(bytes, pos, text)),
        remove_error(insert_bytes(bytes, pos, text), pos, text.len() as int) is None,
        remove_bytes(insert_bytes(bytes, pos, text), pos, text.len() as int) == bytes,
{
    lemma_split_valid(bytes, pos);
    let head = bytes.subrange(0, pos);
    let tail = bytes.subrange(pos, bytes.len() as int);
    let after = insert_bytes(bytes, pos, text);
    lemma_boundary_at_join(text, tail);
    lemma_boundary_at_join(head, text + tail);
    lemma_boundary_at_join(head, text);
    lemma_boundary_at_join(head + text, tail);
    assert(after =~= head + (text + tail));
}

/// Inserting the removed bytes undoes a removal.
proof fn lemma_remove_undone_by_insert(bytes: Seq<u8>, pos: int, len: int)
    requires
        valid_utf8(bytes),
        0 <= pos,
        0 <= len,
        remove_error(bytes, pos, len) is None,
    ensures
        valid_utf8(remove_bytes(bytes, pos, len)),
        valid_utf8(bytes.subrange(pos, pos + len)),
        insert_error(remove_bytes(bytes, pos, len), pos) is None,
        insert_bytes(remove_bytes(bytes, pos, len), pos, bytes.subrange(pos, pos + len))
            == bytes,
{
    lemma_split_valid(bytes, pos);
    lemma_split_valid(bytes, pos + len);
    let head = bytes.subrange(0, pos);
    let tail = bytes.subrange(pos + len, bytes.len() as int);
    lemma_boundary_at_join(head, tail);
    lemma_boundary_in_part(bytes, pos, pos + len, pos);
}

} // verus!
