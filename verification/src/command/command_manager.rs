//! The history of executed and undone commands.
//!
//! The manager runs commands against a document and keeps two stacks: the
//! commands that have been executed, and the commands that have been undone
//! since the last new edit. What each operation does is stated as a step
//! from a [`History`] and a text to a [`Step`].

use crate::command::commands::{Command, Edit};
use crate::document::text_document::TextDocument;
use crate::error::EditError;
use vstd::prelude::*;

verus! {

/// The two stacks of a manager, each with its most recent command last.
pub struct History {
    /// The executed commands.
    pub undo: Seq<Edit>,
    /// The undone commands.
    pub redo: Seq<Edit>,
}

/// What an operation of the manager leaves behind: the stacks, the text,
/// and what the caller is told.
pub struct Step {
    pub history: History,
    pub bytes: Seq<u8>,
    pub result: Result<(), EditError>,
}

impl History {
    /// The history in which nothing has been executed or undone.
    pub open spec fn empty() -> History {
        History { undo: Seq::empty(), redo: Seq::empty() }
    }

    /// Executing a new command `edit` on `bytes`. If the command succeeds it
    /// goes onto the undo stack as it is after the execution, and the redo
    /// stack is emptied. If it fails it is dropped: stacks and text stay as
    /// they are, and the caller gets the error.
    pub open spec fn execute_step(self, bytes: Seq<u8>, edit: Edit) -> Step {
        match edit.applied(bytes) {
            Ok(after) => Step {
                history: History { undo: self.undo.push(edit.executed_on(bytes)), redo: Seq::empty() },
                bytes: after,
                result: Ok(()),
            },
            Err(e) => Step { history: self, bytes, result: Err(e) },
        }
    }

    /// Undoing the most recent executed command on `bytes`. With nothing to
    /// undo the step fails with `NothingToUndo`. Otherwise the command leaves
    /// the undo stack and is inverted: on success it goes onto the redo
    /// stack; on failure it is dropped, the text stays as it is, and the
    /// caller gets the error.
    pub open spec fn undo_step(self, bytes: Seq<u8>) -> Step {
        if self.undo.len() == 0 {
            Step { history: self, bytes, result: Err(EditError::NothingToUndo) }
        } else {
            let edit = self.undo.last();
            match edit.inverted(bytes) {
                Ok(after) => Step {
                    history: History { undo: self.undo.drop_last(), redo: self.redo.push(edit) },
                    bytes: after,
                    result: Ok(()),
                },
                Err(e) => Step {
                    history: History { undo: self.undo.drop_last(), redo: self.redo },
                    bytes,
                    result: Err(e),
                },
            }
        }
    }

    /// Redoing the most recent undone command on `bytes`. With nothing to
    /// redo the step fails with `NothingToRedo`. Otherwise the command leaves
    /// the redo stack and is executed again: on success it goes onto the
    /// undo stack as it is after the execution; on failure it is dropped,
    /// the text stays as it is, and the caller gets the error.
    pub open spec fn redo_step(self, bytes: Seq<u8>) -> Step {
        if self.redo.len() == 0 {
            Step { history: self, bytes, result: Err(EditError::NothingToRedo) }
        } else {
            let edit = self.redo.last();
            match edit.applied(bytes) {
                Ok(after) => Step {
                    history: History {
                        undo: self.undo.push(edit.executed_on(bytes)),
                        redo: self.redo.drop_last(),
                    },
                    bytes: after,
                    result: Ok(()),
                },
                Err(e) => Step {
                    history: History { undo: self.undo, redo: self.redo.drop_last() },
                    bytes,
                    result: Err(e),
                },
            }
        }
    }
}

/// The contents of a stack of commands.
pub open spec fn edits_of<C: Command>(stack: Seq<C>) -> Seq<Edit> {
    stack.map_values(|cmd: C| cmd.edit())
}

/// Runs commands against a document and keeps the undo and redo stacks.
pub struct CommandManager<C: Command> {
    undo_stack: Vec<C>,
    redo_stack: Vec<C>,
}

impl<C: Command> View for CommandManager<C> {
    type V = History;

    closed spec fn view(&self) -> History {
        History { undo: edits_of(self.undo_stack@), redo: edits_of(self.redo_stack@) }
    }
}

impl<C: Command> CommandManager<C> {
    /// A manager with an empty history.
    pub fn new() -> (manager: Self)
        ensures
            manager@ == History::empty(),
    {
        let manager = CommandManager { undo_stack: Vec::new(), redo_stack: Vec::new() };
        assert(manager@.undo =~= Seq::empty());
        assert(manager@.redo =~= Seq::empty());
        manager
    }

    /// Every command on the two stacks has well-formed content.
    pub proof fn lemma_edits_wf(&self)
        ensures
            forall|i: int| 0 <= i < self@.undo.len() ==> (#[trigger] self@.undo[i]).wf(),
            forall|i: int| 0 <= i < self@.redo.len() ==> (#[trigger] self@.redo[i]).wf(),
    {
        assert forall|i: int| 0 <= i < self@.undo.len() implies (#[trigger] self@.undo[i]).wf() by {
            self.undo_stack@[i].lemma_edit_wf();
        }
        assert forall|i: int| 0 <= i < self@.redo.len() implies (#[trigger] self@.redo[i]).wf() by {
            self.redo_stack@[i].lemma_edit_wf();
        }
    }

    /// Executes a new command against `data`. On success the command is
    /// kept for undo and the redo history is dropped. On failure the
    /// document is unchanged and the command is discarded.
    pub fn execute(&mut self, command: C, data: &mut TextDocument) -> (r: Result<(), EditError>)
        requires
            old(data).wf(),
        ensures
            final(data).wf(),
            (Step { history: final(self)@, bytes: final(data)@, result: r }) == old(
                self,
            )@.execute_step(old(data)@, command.edit()),
    {
        let mut command = command;
        match command.execute(data) {
            Ok(()) => {
                self.undo_stack.push(command);
                self.redo_stack.clear();
                assert(self@.undo =~= old(self)@.undo.push(command.edit()));
                assert(self@.redo =~= Seq::empty());
                Ok(())
            },
            Err(e) => Err(e),
        }
    }

    /// Undoes the most recent executed command, or fails with
    /// `NothingToUndo`. A command whose inversion fails is dropped from the
    /// history and its error is returned.
    pub fn undo(&mut self, data: &mut TextDocument) -> (r: Result<(), EditError>)
        requires
            old(data).wf(),
        ensures
            final(data).wf(),
            (Step { history: final(self)@, bytes: final(data)@, result: r }) == old(
                self,
            )@.undo_step(old(data)@),
    {
        match self.undo_stack.pop() {
            None => Err(EditError::NothingToUndo),
            Some(command) => {
                assert(self@.undo =~= old(self)@.undo.drop_last());
                match command.invert(data) {
                    Ok(()) => {
                        self.redo_stack.push(command);
                        assert(self@.redo =~= old(self)@.redo.push(command.edit()));
                        Ok(())
                    },
                    Err(e) => Err(e),
                }
            },
        }
    }

    /// Executes the most recent undone command again, or fails with
    /// `NothingToRedo`. A command whose execution fails is dropped from the
    /// history and its error is returned.
    pub fn redo(&mut self, data: &mut TextDocument) -> (r: Result<(), EditError>)
        requires
            old(data).wf(),
        ensures
            final(data).wf(),
            (Step { history: final(self)@, bytes: final(data)@, result: r }) == old(
                self,
            )@.redo_step(old(data)@),
    {
        match self.redo_stack.pop() {
            None => Err(EditError::NothingToRedo),
            Some(command) => {
                let mut command = command;
                assert(self@.redo =~= old(self)@.redo.drop_last());
                match command.execute(data) {
                    Ok(()) => {
                        self.undo_stack.push(command);
                        assert(self@.undo =~= old(self)@.undo.push(command.edit()));
                        Ok(())
                    },
                    Err(e) => Err(e),
                }
            },
        }
    }
}

} // verus!
