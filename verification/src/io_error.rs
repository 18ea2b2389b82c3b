//! What the operating system said of a failed operation, as plain values.

use vstd::prelude::*;

verus! {

/// The kinds of failure that are told apart.
#[derive(Debug, Clone, Copy, PartialEq, Eq, Structural)]
pub enum IoErrorKind {
    NotFound,
    Interrupted,
    WouldBlock,
    InvalidData,
    InvalidInput,
    WriteZero,
    OutOfMemory,
    Other,
}

/// A failed operation.
#[derive(Debug, Clone, PartialEq, Eq)]
pub struct IoError {
    pub kind: IoErrorKind,
    /// The system's error number, where the failure has one.
    pub code: Option<i32>,
    /// The failure in words.
    pub message: String,
}

} // verus!
