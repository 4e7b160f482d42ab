//! The error taxonomy: what each failure means and in which family it falls.
//!
//! A declined interactive confirmation is deliberately not an error: the
//! operation that met it terminates early with an empty, success-shaped
//! result, so no variant stands for it here.

use vstd::prelude::*;

verus! {

/// Every failure the library can report.
#[derive(Clone, Copy, PartialEq, Eq, Debug, Structural)]
pub enum Error {
    /// Compression was requested with no input files at all.
    NoFilesToCompress,
    /// A path has no file-name component to work from.
    NoFileName,
    /// A name yields an empty chain and no explicit override was given, so
    /// no format is known to decompress by.
    MissingFormats,
    /// An explicit format-override token holds an unrecognized segment.
    UnknownExtension,
    /// Several inputs (or a directory) into a chain with no archive
    /// container: a single compressed stream cannot hold more than one
    /// named entry.
    MultipleInputsToNonArchive,
    /// An archive container stands anywhere but outermost in the chain.
    MisplacedArchiveFormat,
    /// Listing was requested on a chain with no archive container.
    ListNonArchive,
    /// A read, write or codec failure while a pipeline was running.
    IoFailure,
    /// Deleting a partially written output after a failure itself failed:
    /// a possibly corrupt file remains on disk.
    CleanupFailure,
}

/// The families the failures fall in.
#[derive(Clone, Copy, PartialEq, Eq, Debug, Structural)]
pub enum ErrorKind {
    /// The request itself is unusable: nothing to do, or no name to read.
    Input,
    /// The resolved chain is structurally illegal for the request.
    ChainLegality,
    /// The underlying byte work failed.
    Io,
    /// Cleanup after a failure failed in turn; higher severity.
    Cleanup,
}

/// The family each error falls in.
pub open spec fn spec_error_kind(e: Error) -> ErrorKind {
    match e {
        Error::NoFilesToCompress => ErrorKind::Input,
        Error::NoFileName => ErrorKind::Input,
        Error::MissingFormats => ErrorKind::Input,
        Error::UnknownExtension => ErrorKind::Input,
        Error::MultipleInputsToNonArchive => ErrorKind::ChainLegality,
        Error::MisplacedArchiveFormat => ErrorKind::ChainLegality,
        Error::ListNonArchive => ErrorKind::ChainLegality,
        Error::IoFailure => ErrorKind::Io,
        Error::CleanupFailure => ErrorKind::Cleanup,
    }
}

impl Error {
    /// The family this error falls in.
    pub fn kind(&self) -> (r: ErrorKind)
        ensures
            r == spec_error_kind(*self),
    {
        match self {
            Error::NoFilesToCompress => ErrorKind::Input,
            Error::NoFileName => ErrorKind::Input,
            Error::MissingFormats => ErrorKind::Input,
            Error::UnknownExtension => ErrorKind::Input,
            Error::MultipleInputsToNonArchive => ErrorKind::ChainLegality,
            Error::MisplacedArchiveFormat => ErrorKind::ChainLegality,
            Error::ListNonArchive => ErrorKind::ChainLegality,
            Error::IoFailure => ErrorKind::Io,
            Error::CleanupFailure => ErrorKind::Cleanup,
        }
    }
}

} // verus!
