//! The closed set of error kinds that every fallible operation reduces to.

use vstd::prelude::*;

verus! {

/// Describes how an operation has failed.
///
/// Every fallible call in this crate returns exactly one of these kinds;
/// no other failure signal crosses the boundary between the application
/// and the host.
#[derive(Debug, Copy, Clone, PartialEq, Eq, Structural)]
pub enum Error {
    /// The given file or directory path was not found.
    NotFound,
    /// Tried to write to a read-only file.
    FileReadOnly,
    /// Reached the end of the file or stream.
    EndOfFile,
    /// The operation has not been implemented by the host.
    Unimplemented,
    /// An invalid argument was given.
    InvalidArg,
    /// A bad handle was given.
    BadHandle,
    /// A device-specific error occurred.
    DeviceSpecific,
    /// The host does not have enough memory.
    OutOfMemory,
    /// The given path was invalid.
    InvalidPath,
}

} // verus!
