//! Errors of kernel operations.
use vstd::prelude::*;

verus! {

/// Why a kernel operation failed.
#[derive(Clone, Copy, PartialEq, Eq, Structural, Debug)]
pub enum Error {
    /// An address that is not mapped, or data that does not make sense.
    BadAddress,
    /// No free page is left.
    OutOfMemory,
    /// The thread does not exist, or its number is taken.
    ThreadNotAvailable,
    /// The process does not exist, or its number is taken.
    ProcessNotFound,
    /// The server does not exist, or belongs to another process.
    ServerNotFound,
}

} // verus!
