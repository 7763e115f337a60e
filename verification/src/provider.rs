//! The capability contract a remote-storage backend satisfies, and the
//! classification of transfer failures that drives the retry policy.

use vstd::prelude::*;
use crate::models::FileMetadata;

verus! {

/// Why a transfer failed.
///
/// `Timeout`, `RateLimited` and `RemoteUnavailable` (server-side outages)
/// are transient and worth retrying; `AuthFailed` and `Rejected` (the
/// backend refused the request itself) are permanent and require operator
/// action.
#[derive(Clone, Copy, Debug, PartialEq, Eq, Structural)]
pub enum TransferError {
    Timeout,
    RateLimited,
    RemoteUnavailable,
    AuthFailed,
    Rejected,
}

/// Whether a failure is worth retrying.
pub open spec fn is_transient_spec(e: TransferError) -> bool {
    match e {
        TransferError::Timeout => true,
        TransferError::RateLimited => true,
        TransferError::RemoteUnavailable => true,
        TransferError::AuthFailed => false,
        TransferError::Rejected => false,
    }
}

impl TransferError {
    /// Executable form of [`is_transient_spec`].
    pub fn is_transient(&self) -> (r: bool)
        ensures
            r == is_transient_spec(*self),
    {
        match self {
            TransferError::Timeout => true,
            TransferError::RateLimited => true,
            TransferError::RemoteUnavailable => true,
            TransferError::AuthFailed => false,
            TransferError::Rejected => false,
        }
    }
}

/// The operation a coalesced change asks of the backend.
#[derive(Clone, Copy, Debug, PartialEq, Eq, Structural)]
pub enum TransferOp {
    Upload,
    Delete,
}

/// Capability contract of a remote-storage backend.
///
/// Concrete backends live outside this library (they do network I/O); the
/// pipeline only ever depends on this interface. Methods take `&mut self`
/// so that implementations may keep connection or bookkeeping state.
pub trait CloudProvider {
    /// Identifier the provider registers under.
    fn id(&self) -> String;

    /// Uploads the local file to the remote path.
    fn upload_file(&mut self, local_path: &str, cloud_path: &str) -> Result<(), TransferError>;

    /// Downloads the remote file to the local path.
    fn download_file(&mut self, cloud_path: &str, local_path: &str) -> Result<
        (),
        TransferError,
    >;

    /// Deletes the remote file.
    fn delete_file(&mut self, cloud_path: &str) -> Result<(), TransferError>;

    /// Reports the metadata of the remote file.
    fn get_metadata(&mut self, cloud_path: &str) -> Result<FileMetadata, TransferError>;
}

} // verus!
