//! Error type of the library.
//!
//! Every error reports a contract violation by the event producer; none is
//! a recoverable runtime condition.

use vstd::prelude::*;
use vstd::string::StringExecFns;

verus! {

/// Error type of the library.
#[derive(Debug)]
pub enum Error {
    /// An unexpected token was found.
    ///
    /// Tried to use a token of kind `expected` but found `found`.  Raised
    /// when a key position of an object does not hold plain data, and when
    /// an end marker of one compound kind arrives while the innermost open
    /// marker is of the other kind.
    UnexpectedEvent { expected: String, found: String },
    /// The working stack is empty although an open leaf token was expected.
    EmptyTokenQueue,
    /// An array end event arrived with no open begin marker on the stack.
    NoArrayStart,
    /// An object end event arrived with no open begin marker on the stack.
    NoObjectStart,
}

impl Error {
    /// Builds the error for a token of kind `found` standing where a token
    /// of kind `expected` was required.
    pub(crate) fn unexpected_event(expected: &str, found: &str) -> (r: Error)
        ensures
            r matches Error::UnexpectedEvent { expected: e, found: f }
                && e@ == expected@ && f@ == found@,
    {
        Error::UnexpectedEvent {
            expected: String::from_str(expected),
            found: String::from_str(found),
        }
    }
}

} // verus!
