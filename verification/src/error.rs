//! The errors that the store reports.

use vstd::prelude::*;

verus! {

/// What the underlying image refused to do.
#[derive(Debug, Clone, Copy, PartialEq, Eq, Structural)]
pub enum IoFailure {
    /// Bytes were asked for that lie beyond the end of the file.
    UnexpectedEof,
    /// The file cannot grow by another page.
    FileTooLarge,
}

/// Why an operation of the store failed.
#[derive(Debug, Clone, Copy, PartialEq, Eq, Structural)]
pub enum Error {
    /// The underlying file failed.
    IO(IoFailure),
    /// The magic bytes at the start of the file are not the configured ones.
    InvalidFile,
    /// The handle is misaligned or lies beyond the end of the file.
    InvalidPointer,
    /// The handle names a page that is on the free list.
    DeletedPointer,
    /// The file breaks one of the format's invariants.
    CorruptedFile,
}

} // verus!
