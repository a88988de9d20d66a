//! The error type for callers that read or write files.

use vstd::prelude::*;

verus! {

/// What went wrong at the file-system boundary. The text operations
/// themselves are total and never fail; only opening, reading and writing
/// files can, and a caller doing that I/O reports it with one of these.
#[derive(Clone, Copy, Debug, PartialEq, Eq, Structural)]
pub enum FileError {
    /// The source path could not be opened for reading, or the destination
    /// path could not be created for writing.
    NotFound,
    /// The file was opened but its contents could not be fully read or
    /// decoded as text.
    ReadFailure,
    /// The destination was opened but the bytes could not be fully written.
    WriteFailure,
}

impl FileError {
    /// A fixed description of the failure.
    pub fn message(&self) -> (text: &'static str)
        ensures
            self is NotFound ==> text@ == "file not found"@,
            self is ReadFailure ==> text@ == "something went wrong reading the file"@,
            self is WriteFailure ==> text@ == "something went wrong writing the file"@,
    {
        match self {
            FileError::NotFound => "file not found",
            FileError::ReadFailure => "something went wrong reading the file",
            FileError::WriteFailure => "something went wrong writing the file",
        }
    }
}

} // verus!
