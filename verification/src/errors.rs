use vstd::prelude::*;

verus! {

/// The typed failures the synchronization core reports. Decode,
/// reconcile and merge failures never mutate canonical state; permission
/// and duplicate-id failures are rejected synchronously with no side
/// effects.
#[derive(Clone, Copy, Debug, PartialEq, Eq, Structural)]
pub enum SyncError {
    /// `register`, or a local `Create` intent, named a document id that
    /// already exists in the registry.
    DuplicateDocument,
    /// A local `Update` or `Delete` intent named a document id that is
    /// not in the registry.
    UnknownDocument,
    /// The document is held ReadOnly locally, so it may receive merges
    /// but never originate a local mutation or an outbound broadcast.
    PermissionDenied,
    /// An inbound payload could not be decoded into a document snapshot.
    DecodeError,
    /// A decoded snapshot could not be reconciled with the canonical
    /// document it was addressed to (its declared id disagrees with the
    /// envelope's).
    ReconcileError,
    /// The merge of a reconciled branch back into the canonical document
    /// failed.
    MergeError,
    /// No peer is available to carry an outbound broadcast.
    PeerUnavailable,
    /// The failure queue is at capacity, so the rejected payload could
    /// not be recorded for retry.
    QueueFull,
}

} // verus!
