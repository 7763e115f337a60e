//! Data model of the pipeline: configured sync pairs and their lifecycle
//! status, and the metadata a remote backend reports for a stored file.

use vstd::prelude::*;

verus! {

/// Lifecycle status of a sync pair.
///
/// A pair is created as `Pending`, becomes `Active` once its local root
/// exists and the watcher has subscribed, moves to `Paused` on explicit user
/// action or on a permanent (authentication-class) transfer failure, and to
/// `Error` after a transfer exhausts its retry attempts. A later successful
/// transfer for the pair moves `Error` back to `Active`.
#[derive(Clone, Copy, Debug, PartialEq, Eq, Structural)]
pub enum PairStatus {
    Pending,
    Active,
    Paused,
    Error,
}

/// The canonical textual form of a status, as the persistent store records it.
pub open spec fn status_label_spec(s: PairStatus) -> Seq<char> {
    match s {
        PairStatus::Pending => "pending"@,
        PairStatus::Active => "active"@,
        PairStatus::Paused => "paused"@,
        PairStatus::Error => "error"@,
    }
}

impl PairStatus {
    /// Textual form of the status, for persistence and display.
    pub fn label(&self) -> (r: String)
        ensures
            r@ == status_label_spec(*self),
    {
        match self {
            PairStatus::Pending => String::from_str("pending"),
            PairStatus::Active => String::from_str("active"),
            PairStatus::Paused => String::from_str("paused"),
            PairStatus::Error => String::from_str("error"),
        }
    }
}

/// A configured local-to-remote directory mapping.
pub struct SyncPair {
    /// Unique identifier, assigned at creation, immutable.
    pub id: i64,
    /// Absolute local filesystem root being mirrored.
    pub local_path: String,
    /// Prefix in the remote backend's namespace that receives the mirror.
    pub remote_path: String,
    /// Identifier of the provider that performs the transfers.
    pub provider_id: String,
    /// Current lifecycle status.
    pub status: PairStatus,
    /// Creation timestamp, immutable.
    pub created_at: i64,
}

impl Clone for SyncPair {
    fn clone(&self) -> (r: Self)
        ensures
            r.id == self.id,
            r.local_path@ == self.local_path@,
            r.remote_path@ == self.remote_path@,
            r.provider_id@ == self.provider_id@,
            r.status == self.status,
            r.created_at == self.created_at,
    {
        SyncPair {
            id: self.id,
            local_path: self.local_path.clone(),
            remote_path: self.remote_path.clone(),
            provider_id: self.provider_id.clone(),
            status: self.status,
            created_at: self.created_at,
        }
    }
}

/// Mathematical model of a sync pair: id, local root view, remote prefix
/// view, provider identifier view, status, creation time.
pub type PairModel = (i64, Seq<char>, Seq<char>, Seq<char>, PairStatus, i64);

/// Model of one pair.
pub open spec fn pair_model(p: SyncPair) -> PairModel {
    (p.id, p.local_path@, p.remote_path@, p.provider_id@, p.status, p.created_at)
}

/// Model of a pair list, in order.
pub open spec fn pairs_model(s: Seq<SyncPair>) -> Seq<PairModel> {
    s.map_values(|p: SyncPair| pair_model(p))
}

/// Metadata a remote backend reports for a stored file.
#[derive(Debug)]
pub struct FileMetadata {
    /// Content hash as the backend reports it.
    pub hash: String,
    /// Size in bytes.
    pub size: u64,
    /// Modification time as a backend-defined timestamp.
    pub modified_at: i64,
}

impl Clone for FileMetadata {
    fn clone(&self) -> (r: Self)
        ensures
            r.hash@ == self.hash@,
            r.size == self.size,
            r.modified_at == self.modified_at,
    {
        FileMetadata {
            hash: self.hash.clone(),
            size: self.size,
            modified_at: self.modified_at,
        }
    }
}

} // verus!
