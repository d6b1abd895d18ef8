//! The ways an extraction run can fail. Every failure is terminal for the
//! caller; none is retried.

use vstd::prelude::*;

verus! {

/// One variant per failure category: no path argument at all, a path that
/// could not be opened (with the OS cause), a path without an extension, an
/// extension outside the recognized set (carried verbatim), a read that
/// failed after the open (with the OS cause), and plain-text content that is
/// not valid UTF-8.
#[derive(Debug)]
pub enum ExtractError {
    UsageError,
    FileOpenError(String),
    MissingExtension,
    UnsupportedExtension(Vec<u8>),
    IoError(String),
    InvalidEncoding,
}

} // verus!
