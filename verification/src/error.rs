use vstd::prelude::*;

verus! {

/// Why an edit, an undo or a redo was refused. Every kind is recoverable: the
/// caller gets the error back and the buffer is left as it was.
#[derive(Clone, Copy, Debug, PartialEq, Eq, Structural)]
pub enum EditError {
    /// A position or a length reaches past the end of the buffer.
    OutOfRange,
    /// An offset falls inside the encoding of a multi-byte character.
    InvalidBoundary,
    /// `invert` was called on a command that has never been executed.
    NotExecuted,
    /// The undo stack is empty.
    NothingToUndo,
    /// The redo stack is empty.
    NothingToRedo,
}

} // verus!
