use vstd::prelude::*;

verus! {

/// The error kinds that note operations report. The command boundary renders
/// them and picks an exit code; the library itself never terminates the
/// process.
#[derive(Clone, Copy, Debug, PartialEq, Eq, Structural)]
pub enum NoteError {
    /// A note already occupies the target path.
    AlreadyExists,
    /// The target of a delete or edit does not exist.
    NotFound,
    /// A picker index was unparseable or out of range.
    InvalidSelection,
    /// A generic filesystem or process failure.
    IoFailure,
    /// No editor is configured where one is required.
    MissingEditor,
}

} // verus!
