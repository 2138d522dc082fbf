//! The failures that decoding operations report.

use vstd::prelude::*;

verus! {

/// Why the byte source itself refused an operation.
#[derive(Debug, Clone, Copy, PartialEq, Eq, Structural)]
pub enum IoErrorKind {
    /// Fewer bytes remain in the source than the operation requires.
    UnexpectedEof,
    /// A seek asked for a position before the start of the source, or one
    /// that no 64-bit offset can express.
    InvalidInput,
}

/// Every failure a read or a peek can end in.
#[derive(Debug, Clone, Copy, PartialEq, Eq, Structural)]
pub enum InterpreterError {
    /// The source ran short, or rejected a seek.
    IoError(IoErrorKind),
    /// The consumed bytes are not valid UTF-8.
    Utf8Error,
    /// The consumed code units are not valid UTF-16.
    Utf16Error,
}

/// The error of a read that found fewer bytes than it needs.
pub open spec fn shortfall() -> InterpreterError {
    InterpreterError::IoError(IoErrorKind::UnexpectedEof)
}

/// The error of a seek to a position that does not exist.
pub open spec fn seek_failure() -> InterpreterError {
    InterpreterError::IoError(IoErrorKind::InvalidInput)
}

} // verus!
