//! Error kinds reported by the library.

use vstd::prelude::*;

verus! {

/// The category of a failure, as the command line reports it.
#[derive(Debug, Clone, Copy, PartialEq, Eq, Structural)]
pub enum ErrorKind {
    /// An argument was outside the accepted range.
    InvalidInput,
    /// Stored data could not be read back.
    InvalidData,
    /// Something required was absent.
    NotFound,
}

} // verus!
