//! The library's error type.

use vstd::prelude::*;

verus! {

/// Why an operation of the library failed.
#[derive(Debug, Clone)]
pub enum Error {
    /// An I/O operation failed; the text describes it.
    Io(String),
    /// The fileset database reported an error; the text describes it.
    Database(String),
    /// An argument was refused; the text says which and why.
    InvalidArgument(String),
    /// The operation was cancelled.
    Cancelled,
}

} // verus!
