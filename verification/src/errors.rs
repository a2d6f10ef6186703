use vstd::prelude::*;

verus! {

/// The outcomes on which a run of the updater can fail.
///
/// Every error is terminal for the single run: nothing is retried and no
/// partial result is written once one of these is reported.
#[derive(Clone, Copy, Debug, PartialEq, Eq, Structural)]
pub enum UpdateError {
    /// A required environment setting was absent.
    MissingConfig,
    /// The file's extension or name matches no supported format.
    UnrecognizedFormat,
    /// The matching codec could not parse the file's content.
    MalformedDocument,
    /// The matching codec could not serialize the updated document.
    SerializationError,
    /// The file could not be read or written.
    IoError,
}

impl UpdateError {
    /// A human-readable description of the error, for reporting at the
    /// process boundary.
    pub fn describe(&self) -> &'static str {
        match self {
            UpdateError::MissingConfig => "a required environment variable is not set",
            UpdateError::UnrecognizedFormat => "no file was recognized as a supported format",
            UpdateError::MalformedDocument => "the file could not be parsed",
            UpdateError::SerializationError => "the updated document could not be serialized",
            UpdateError::IoError => "the file could not be read or written",
        }
    }
}

} // verus!
