//! Error kinds surfaced by the storage operations.

use vstd::prelude::*;

verus! {

/// The failure kinds of the storage core.
///
/// `NotFound` reports a chunk or file absent on the backend; `IOFailure` an
/// underlying read, write, open or delete failure; `InternalError` an
/// invariant violation such as an unparseable chunk-index token discovered
/// during enumeration; `EnumerationFailure` a failed backend listing.
#[derive(Clone, Copy, Debug, PartialEq, Eq, Structural)]
pub enum Error {
    NotFound,
    IOFailure,
    InternalError,
    EnumerationFailure,
}

impl Error {
    /// A short diagnostic label for the error kind.
    pub fn describe(&self) -> (r: &'static str)
        ensures
            *self is NotFound ==> r@ == "not found"@,
            *self is IOFailure ==> r@ == "i/o failure"@,
            *self is InternalError ==> r@ == "internal error"@,
            *self is EnumerationFailure ==> r@ == "enumeration failure"@,
    {
        match self {
            Error::NotFound => "not found",
            Error::IOFailure => "i/o failure",
            Error::InternalError => "internal error",
            Error::EnumerationFailure => "enumeration failure",
        }
    }
}

} // verus!
