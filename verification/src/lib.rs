//! A document synchronization core for replicating small structured
//! documents across peers without a central authority.
//!
//! Each document holds a fixed set of typed fields, every field a
//! last-writer-wins register stamped with a logical time and the actor
//! (branch) that wrote it. Merging two branches of one document keeps,
//! field by field, the write that is greatest in a deterministic total
//! order, so independent replicas converge no matter in which order
//! snapshots arrive. A registry gates local mutation behind per-document
//! permissions, admits foreign snapshots through a fork-reconcile-merge
//! protocol under a bounded permit pool, records undecodable payloads in
//! a FIFO failure queue, and publishes lifecycle events.

pub mod codec;
pub mod document;
pub mod envelope;
pub mod errors;
pub mod order;
pub mod permission;
pub mod permits;
pub mod register;
pub mod store;

pub use document::{CrdtOperation, Document, Update};
pub use envelope::Invite;
pub use errors::SyncError;
pub use permission::PeerPermission;
pub use permits::PermitPool;
pub use store::{DocInfo, FailureRecord, Manager, MirrorRow, SyncMessage};
