//! The failures of a download, the stage that each belongs to, and the exit
//! status that a result is surfaced as.

use crate::chunk::FetchError;
use crate::range::ByteRange;
use vstd::prelude::*;

verus! {

/// Why a download did not succeed.
#[derive(Clone, Copy, Debug, PartialEq, Eq, Structural)]
pub enum DownloadError {
    /// The metadata probe was rejected or gave no usable length. The
    /// download can go on as a single stream.
    Metadata,
    /// The fetch of one range failed. Nothing is written.
    Fetch(FetchError),
    /// A write to the file failed at `offset`. `cause` is the operating
    /// system's error number where it gave one. The file is left as it is.
    Write { offset: u64, cause: Option<i32> },
    /// The output directory is missing or cannot be written to.
    Path,
    /// The fetches were stopped although none had failed.
    Cancelled,
}

/// The stage of a download that a failure belongs to.
#[derive(Clone, Copy, Debug, PartialEq, Eq, Structural)]
pub enum Stage {
    /// The metadata probe.
    MetadataProbe,
    /// The fetch of this range.
    RangeFetch(ByteRange),
    /// The write to the file at this offset.
    DiskWrite(u64),
    /// The output path.
    OutputPath,
    /// The stopping of the fetches.
    Cancellation,
}

impl DownloadError {
    /// The stage that the failure is reported for.
    pub open spec fn spec_stage(self) -> Stage {
        match self {
            DownloadError::Metadata => Stage::MetadataProbe,
            DownloadError::Fetch(error) => Stage::RangeFetch(error.range),
            DownloadError::Write { offset, .. } => Stage::DiskWrite(offset),
            DownloadError::Path => Stage::OutputPath,
            DownloadError::Cancelled => Stage::Cancellation,
        }
    }

    /// The stage that the failure is reported for: the probe, the byte
    /// range, the offset of the write, or the output path.
    pub fn stage(&self) -> (stage: Stage)
        ensures
            stage == self.spec_stage(),
    {
        match self {
            DownloadError::Metadata => Stage::MetadataProbe,
            DownloadError::Fetch(error) => Stage::RangeFetch(error.range),
            DownloadError::Write { offset, .. } => Stage::DiskWrite(*offset),
            DownloadError::Path => Stage::OutputPath,
            DownloadError::Cancelled => Stage::Cancellation,
        }
    }

    /// Whether the download can go on after this failure. Only a failed
    /// probe can be made up for, by fetching the resource as one stream.
    pub fn is_recoverable(&self) -> (recoverable: bool)
        ensures
            recoverable <==> *self == DownloadError::Metadata,
    {
        match self {
            DownloadError::Metadata => true,
            _ => false,
        }
    }
}

/// The exit status of a result: 0 for success, 1 for every failure.
pub open spec fn spec_exit_code(result: Result<(), DownloadError>) -> u8 {
    match result {
        Ok(_) => 0,
        Err(_) => 1,
    }
}

/// The exit status that a result is surfaced as: 0 for success and 1 for a
/// failure of any kind.
pub fn exit_code(result: &Result<(), DownloadError>) -> (code: u8)
    ensures
        code == spec_exit_code(*result),
        code == 0 <==> *result is Ok,
{
    match result {
        Ok(_) => 0,
        Err(_) => 1,
    }
}

} // verus!
