//! The editable document: one text buffer and one command manager.
//!
//! This is the object that the user interface and the file handling work
//! with. The text is changed only by commands that go through the manager,
//! so the history always fits the text: the executed commands can be
//! unwound one by one down to the text that was loaded, and the undone
//! commands can be executed again one by one.

use crate::command::command_manager::{CommandManager, History, Step};
use crate::command::commands::{
    lemma_execute_ignores_captured_state,
    lemma_execute_then_invert_restores,
    Command,
    Edit,
    EditCommand,
};
use crate::document::line_index::{line_starts, line_text};
use crate::document::text_document::TextDocument;
use crate::error::EditError;
use vstd::prelude::*;
use vstd::utf8::*;

verus! {

/// What executing `edits` in order makes of the text `start`: the final
/// text, or the error of the first command that is refused.
pub open spec fn replay(start: Seq<u8>, edits: Seq<Edit>) -> Result<Seq<u8>, EditError>
    decreases edits.len(),
{
    if edits.len() == 0 {
        Ok(start)
    } else {
        match replay(start, edits.drop_last()) {
            Ok(bytes) => edits.last().applied(bytes),
            Err(e) => Err(e),
        }
    }
}

/// True when the executed commands `undo` can be unwound from `bytes` down
/// to `base`: the most recent command inverts `bytes` to the text on which
/// its execution gave `bytes` and left the command as it is, and so on down
/// the stack.
pub open spec fn unwinds_to(base: Seq<u8>, undo: Seq<Edit>, bytes: Seq<u8>) -> bool
    decreases undo.len(),
{
    if undo.len() == 0 {
        bytes == base
    } else {
        let edit = undo.last();
        match edit.inverted(bytes) {
            Ok(before) => {
                &&& edit.wf()
                &&& valid_utf8(before)
                &&& edit.applied(before) == Ok::<Seq<u8>, EditError>(bytes)
                &&& edit.executed_on(before) == edit
                &&& unwinds_to(base, undo.drop_last(), before)
            },
            Err(_) => false,
        }
    }
}

/// True when the undone commands `redo` can be executed again from `bytes`
/// on, the most recent one first.
pub open spec fn replays_from(bytes: Seq<u8>, redo: Seq<Edit>) -> bool
    decreases redo.len(),
{
    if redo.len() == 0 {
        true
    } else {
        let edit = redo.last();
        match edit.applied(bytes) {
            Ok(after) => edit.wf() && replays_from(after, redo.drop_last()),
            Err(_) => false,
        }
    }
}

/// The state of an editable document.
pub struct DocumentState {
    /// The text as it was when it was last loaded or cleared.
    pub base: Seq<u8>,
    /// The text as it is.
    pub bytes: Seq<u8>,
    /// The executed and the undone commands.
    pub history: History,
}

impl DocumentState {
    /// The state of a document that has just been given the text `bytes`.
    pub open spec fn fresh(bytes: Seq<u8>) -> DocumentState {
        DocumentState { base: bytes, bytes, history: History::empty() }
    }

    /// True when the history fits the text.
    pub open spec fn consistent(self) -> bool {
        &&& valid_utf8(self.bytes)
        &&& unwinds_to(self.base, self.history.undo, self.bytes)
        &&& replays_from(self.bytes, self.history.redo)
    }

    /// The state that a step of the manager leaves behind.
    pub open spec fn after(self, step: Step) -> DocumentState {
        DocumentState { base: self.base, bytes: step.bytes, history: step.history }
    }
}

/// Replay-equivalence: executing the commands of the undo stack in order,
/// starting from the text that was loaded, gives the current text.
pub proof fn lemma_replay_gives_current_text(state: DocumentState)
    requires
        state.consistent(),
    ensures
        replay(state.base, state.history.undo) == Ok::<Seq<u8>, EditError>(state.bytes),
{
    lemma_replay_of_unwound(state.base, state.history.undo, state.bytes);
}

/// Replay-equivalence for a document that started empty: executing the
/// commands of the undo stack in order on an empty text gives the current
/// text.
pub proof fn lemma_replay_from_empty_gives_current_text(state: DocumentState)
    requires
        state.consistent(),
        state.base == Seq::<u8>::empty(),
    ensures
        replay(Seq::<u8>::empty(), state.history.undo) == Ok::<Seq<u8>, EditError>(state.bytes),
{
    lemma_replay_of_unwound(state.base, state.history.undo, state.bytes);
}

/// Executing in order the commands that unwind from `bytes` to `base`
/// leads from `base` to `bytes`.
proof fn lemma_replay_of_unwound(base: Seq<u8>, undo: Seq<Edit>, bytes: Seq<u8>)
    requires
        unwinds_to(base, undo, bytes),
    ensures
        replay(base, undo) == Ok::<Seq<u8>, EditError>(bytes),
    decreases undo.len(),
{
    if undo.len() > 0 {
        let before = undo.last().inverted(bytes)->Ok_0;
        lemma_replay_of_unwound(base, undo.drop_last(), before);
    }
}

/// A document that has just been given a text is consistent.
pub proof fn lemma_fresh_is_consistent(bytes: Seq<u8>)
    requires
        valid_utf8(bytes),
    ensures
        DocumentState::fresh(bytes).consistent(),
{
}

/// Executing a new command keeps a consistent document consistent.
pub proof fn lemma_execute_keeps_consistent(state: DocumentState, edit: Edit)
    requires
        state.consistent(),
        edit.wf(),
    ensures
        state.after(state.history.execute_step(state.bytes, edit)).consistent(),
{
    if edit.applied(state.bytes) is Ok {
        lemma_pushed_unwinds(state.base, state.history.undo, state.bytes, edit);
    }
}

/// In a consistent document an undo fails only when there is nothing to
/// undo, it gives back the text on which the undone command was executed,
/// and it keeps the document consistent.
pub proof fn lemma_undo_keeps_consistent(state: DocumentState)
    requires
        state.consistent(),
    ensures
        state.after(state.history.undo_step(state.bytes)).consistent(),
        state.history.undo.len() > 0 ==> state.history.undo_step(state.bytes).result is Ok,
        state.history.undo.len() > 0 ==> state.history.undo.last().applied(
            state.history.undo_step(state.bytes).bytes,
        ) == Ok::<Seq<u8>, EditError>(state.bytes),
{
    if state.history.undo.len() > 0 {
        let edit = state.history.undo.last();
        assert(state.history.redo.push(edit).drop_last() =~= state.history.redo);
    }
}

/// In a consistent document a redo fails only when there is nothing to
/// redo, and it keeps the document consistent.
pub proof fn lemma_redo_keeps_consistent(state: DocumentState)
    requires
        state.consistent(),
    ensures
        state.after(state.history.redo_step(state.bytes)).consistent(),
        state.history.redo.len() > 0 ==> state.history.redo_step(state.bytes).result is Ok,
{
    if state.history.redo.len() > 0 {
        let edit = state.history.redo.last();
        lemma_pushed_unwinds(state.base, state.history.undo, state.bytes, edit);
    }
}

/// Redo-invalidation: whatever was executed and undone before, once a new
/// command has been executed with success there is nothing to redo.
pub proof fn lemma_new_edit_invalidates_redo(
    history: History,
    bytes: Seq<u8>,
    first: Edit,
    second: Edit,
)
    ensures
        ({
            let executed = history.execute_step(bytes, first);
            let undone = executed.history.undo_step(executed.bytes);
            let edited = undone.history.execute_step(undone.bytes, second);
            edited.result is Ok ==> edited.history.redo_step(edited.bytes).result == Err::<
                (),
                EditError,
            >(EditError::NothingToRedo)
        }),
{
}

/// Undo followed by redo leaves the text as it was, and so does redo
/// followed by undo.
pub proof fn lemma_undo_redo_round_trip(state: DocumentState)
    requires
        state.consistent(),
    ensures
        state.history.undo.len() > 0 ==> ({
            let undone = state.history.undo_step(state.bytes);
            undone.history.redo_step(undone.bytes).result is Ok && undone.history.redo_step(
                undone.bytes,
            ).bytes == state.bytes
        }),
        state.history.redo.len() > 0 ==> ({
            let redone = state.history.redo_step(state.bytes);
            redone.history.undo_step(redone.bytes).result is Ok && redone.history.undo_step(
                redone.bytes,
            ).bytes == state.bytes
        }),
{
    if state.history.undo.len() > 0 {
        lemma_undo_keeps_consistent(state);
    }
    if state.history.redo.len() > 0 {
        let edit = state.history.redo.last();
        lemma_pushed_unwinds(state.base, state.history.undo, state.bytes, edit);
    }
}

/// A command that has just been executed on `bytes` unwinds to `bytes`.
proof fn lemma_pushed_unwinds(base: Seq<u8>, undo: Seq<Edit>, bytes: Seq<u8>, edit: Edit)
    requires
        valid_utf8(bytes),
        unwinds_to(base, undo, bytes),
        edit.wf(),
        edit.applied(bytes) is Ok,
    ensures
        valid_utf8(edit.applied(bytes)->Ok_0),
        unwinds_to(base, undo.push(edit.executed_on(bytes)), edit.applied(bytes)->Ok_0),
        edit.executed_on(bytes).inverted(edit.applied(bytes)->Ok_0) == Ok::<Seq<u8>, EditError>(
            bytes,
        ),
{
    lemma_execute_then_invert_restores(edit, bytes);
    lemma_execute_ignores_captured_state(edit, bytes, bytes);
    assert(undo.push(edit.executed_on(bytes)).drop_last() =~= undo);
}

/// A text buffer together with the history of the commands that changed it.
pub struct Document {
    buffer: TextDocument,
    history: CommandManager<EditCommand>,
    base: Ghost<Seq<u8>>,
}

impl View for Document {
    type V = DocumentState;

    closed spec fn view(&self) -> DocumentState {
        DocumentState { base: self.base@, bytes: self.buffer@, history: self.history@ }
    }
}

impl Document {
    /// True when the line index fits the text and the history fits the text.
    pub closed spec fn wf(&self) -> bool {
        &&& self.buffer.wf()
        &&& self@.consistent()
    }

    /// The state of a well-formed document is consistent: this opens the
    /// laws on consistent states to every document.
    pub proof fn lemma_consistent(&self)
        requires
            self.wf(),
        ensures
            self@.consistent(),
    {
    }

    /// Replay-equivalence holds of every document: executing the commands
    /// of its undo stack in order, starting from the text that was loaded,
    /// gives its current text.
    pub proof fn lemma_replay_equivalence(&self)
        requires
            self.wf(),
        ensures
            replay(self@.base, self@.history.undo) == Ok::<Seq<u8>, EditError>(self@.bytes),
    {
        lemma_replay_gives_current_text(self@);
    }

    /// An empty document with an empty history.
    pub fn new() -> (doc: Self)
        ensures
            doc.wf(),
            doc@ == DocumentState::fresh(Seq::<u8>::empty()),
    {
        Document {
            buffer: TextDocument::new(),
            history: CommandManager::new(),
            base: Ghost(Seq::<u8>::empty()),
        }
    }

    /// Replaces the content by `text` and starts a new history. Any text is
    /// accepted: this never fails.
    pub fn load(&mut self, text: String) -> (r: Result<(), EditError>)
        ensures
            r is Ok,
            final(self).wf(),
            final(self)@ == DocumentState::fresh(encode_utf8(text@)),
    {
        proof {
            encode_utf8_valid_utf8(text@);
        }
        self.base = Ghost(encode_utf8(text@));
        self.buffer.init(text);
        self.history = CommandManager::new();
        Ok(())
    }

    /// Empties the document and starts a new history.
    pub fn clear(&mut self)
        ensures
            final(self).wf(),
            final(self)@ == DocumentState::fresh(Seq::<u8>::empty()),
    {
        self.base = Ghost(Seq::<u8>::empty());
        self.buffer.clear();
        self.history = CommandManager::new();
    }

    /// The whole text, for saving.
    pub fn save_content(&self) -> (content: &str)
        ensures
            encode_utf8(content@) == self@.bytes,
    {
        self.buffer.get_content()
    }

    /// Executes a new command. On success the command can be undone and
    /// nothing is left to redo. On failure nothing has changed.
    pub fn apply(&mut self, command: EditCommand) -> (r: Result<(), EditError>)
        requires
            old(self).wf(),
        ensures
            final(self).wf(),
            final(self)@.base == old(self)@.base,
            (Step { history: final(self)@.history, bytes: final(self)@.bytes, result: r }) == old(
                self,
            )@.history.execute_step(old(self)@.bytes, command.edit()),
    {
        proof {
            command.lemma_edit_wf();
            lemma_execute_keeps_consistent(self@, command.edit());
        }
        self.history.execute(command, &mut self.buffer)
    }

    /// Undoes the most recent executed command. Fails with `NothingToUndo`
    /// when no executed command is left, and never otherwise.
    pub fn undo(&mut self) -> (r: Result<(), EditError>)
        requires
            old(self).wf(),
        ensures
            final(self).wf(),
            final(self)@.base == old(self)@.base,
            (Step { history: final(self)@.history, bytes: final(self)@.bytes, result: r }) == old(
                self,
            )@.history.undo_step(old(self)@.bytes),
            r is Err <==> old(self)@.history.undo.len() == 0,
    {
        proof {
            lemma_undo_keeps_consistent(self@);
        }
        self.history.undo(&mut self.buffer)
    }

    /// Executes the most recent undone command again. Fails with
    /// `NothingToRedo` when no undone command is left, and never otherwise.
    pub fn redo(&mut self) -> (r: Result<(), EditError>)
        requires
            old(self).wf(),
        ensures
            final(self).wf(),
            final(self)@.base == old(self)@.base,
            (Step { history: final(self)@.history, bytes: final(self)@.bytes, result: r }) == old(
                self,
            )@.history.redo_step(old(self)@.bytes),
            r is Err <==> old(self)@.history.redo.len() == 0,
    {
        proof {
            lemma_redo_keeps_consistent(self@);
        }
        self.history.redo(&mut self.buffer)
    }

    /// The text of line `line_no`, counted from 0, without its terminator;
    /// `None` when the document has no such line.
    pub fn get_line(&self, line_no: usize) -> (r: Option<&str>)
        requires
            self.wf(),
        ensures
            match r {
                Some(text) => line_no < line_starts(self@.bytes).len() && encode_utf8(text@)
                    == line_text(self@.bytes, line_no as int),
                None => line_no >= line_starts(self@.bytes).len(),
            },
    {
        self.buffer.getline(line_no)
    }

    /// The number of lines.
    pub fn line_count(&self) -> (count: usize)
        requires
            self.wf(),
        ensures
            count == line_starts(self@.bytes).len(),
    {
        self.buffer.line_count()
    }
}

} // verus!
