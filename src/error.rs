use vstd::prelude::*;

verus! {

/// What can go wrong when a document is read or a collection is edited.
#[derive(Clone, Copy, Debug, PartialEq, Eq, Structural)]
pub enum Error {
    /// The document is not well-formed XML of the expected shape.
    MalformedDocument,
    /// A record lacks a required value, or holds one outside its domain.
    ValidationFailure,
    /// No record has the name asked for.
    NotFound,
    /// A search pattern is not a regular expression that compiles.
    InvalidPattern,
}

} // verus!
