use vstd::prelude::*;

verus! {

/// What is wrong with the arguments of a call.
#[derive(Debug, Clone, Copy, PartialEq, Eq, Structural)]
pub enum ArgumentError {
    /// The time-to-live is below zero.
    NegativeTtl,
    /// The context handed to an update is not an object.
    ContextNotObject,
    /// The context has no `key` field.
    MissingKey,
    /// The context's `key` field is not an integer.
    KeyNotInteger,
    /// The context has no `data` field.
    MissingData,
}

/// The ways a store operation can fail.
#[derive(Debug, Clone, Copy, PartialEq, Eq, Structural)]
pub enum ContextError {
    /// The call was malformed; the store was left as it was.
    InvalidArgument(ArgumentError),
}

} // verus!
