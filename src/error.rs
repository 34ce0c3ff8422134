use vstd::prelude::*;

verus! {

/// What can go wrong when the journal works with its store.
#[derive(Debug, PartialEq, Eq, Structural, Clone, Copy)]
pub enum JournalError {
    /// The store could not be opened, read, written or deleted from.
    IoFailure,
    /// A stored key is not a well-formed sixteen-byte key.
    MalformedKey,
    /// The sequence ids of the queue namespace are used up.
    Exhausted,
}

} // verus!
