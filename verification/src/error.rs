//! The typed failures a scan can raise.  Each variant wraps the message of
//! the underlying failure as plain text.

use vstd::prelude::*;

verus! {

/// A failure raised somewhere in the scan pipeline.
#[derive(Debug)]
pub enum ScanError {
    /// A filesystem operation failed.
    IOError(String),
    /// The system clock misbehaved.
    SystemTimeError(String),
    /// A wrapped message, e.g. a failed playlist scan.
    Message(String),
    /// An image buffer could not be constructed.
    ImageBufferError(String),
    /// An image could not be decoded or encoded.
    ImageError(String),
    /// Source and destination pixel formats disagreed while resizing.
    DifferentTypesOfPixelsError(String),
    /// The audio tag reader failed.
    LoftyError(String),
    /// The catalog database failed.
    Sqlite3Error(String),
    /// A numeric field could not be parsed.
    ParseFloatError(String),
    /// Walking a directory failed.
    JWalkError(String),
}

impl ScanError {
    /// The plain text wrapped by this error.
    pub open spec fn text(&self) -> Seq<char> {
        match self {
            ScanError::IOError(s) => s@,
            ScanError::SystemTimeError(s) => s@,
            ScanError::Message(s) => s@,
            ScanError::ImageBufferError(s) => s@,
            ScanError::ImageError(s) => s@,
            ScanError::DifferentTypesOfPixelsError(s) => s@,
            ScanError::LoftyError(s) => s@,
            ScanError::Sqlite3Error(s) => s@,
            ScanError::ParseFloatError(s) => s@,
            ScanError::JWalkError(s) => s@,
        }
    }

    /// A copy of the wrapped message, for display by the consumer.
    pub fn message(&self) -> (r: String)
        ensures
            r@ == self.text(),
    {
        match self {
            ScanError::IOError(s) => s.clone(),
            ScanError::SystemTimeError(s) => s.clone(),
            ScanError::Message(s) => s.clone(),
            ScanError::ImageBufferError(s) => s.clone(),
            ScanError::ImageError(s) => s.clone(),
            ScanError::DifferentTypesOfPixelsError(s) => s.clone(),
            ScanError::LoftyError(s) => s.clone(),
            ScanError::Sqlite3Error(s) => s.clone(),
            ScanError::ParseFloatError(s) => s.clone(),
            ScanError::JWalkError(s) => s.clone(),
        }
    }
}

} // verus!
