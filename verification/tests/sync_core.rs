use docsync::document::Update;
use docsync::{CrdtOperation, Document, Manager, PeerPermission, PermitPool, SyncError,
    SyncMessage};

fn doc_with(id: u128, actor: u64, name: &[u8], description: &[u8]) -> Document {
    let mut d = Document::new(id, actor);
    d.apply_update(&Update::Name(name.to_vec()));
    d.apply_update(&Update::Description(description.to_vec()));
    d
}

#[test]
fn merge_is_commutative() {
    let base = doc_with(1, 1, b"test", b"base");
    let mut a = base.fork(2);
    let mut b = base.fork(3);
    a.apply_update(&Update::Name(b"left".to_vec()));
    b.apply_update(&Update::Description(b"right".to_vec()));

    let mut ab = a.duplicate();
    ab.merge(&b);
    let mut ba = b.duplicate();
    ba.merge(&a);

    assert_eq!(ab.name.value, ba.name.value);
    assert_eq!(ab.path.value, ba.path.value);
    assert_eq!(ab.description.value, ba.description.value);
    assert_eq!(ab.removed, ba.removed);
    assert_eq!(ab.clock, ba.clock);
}

#[test]
fn merge_is_idempotent() {
    let base = doc_with(1, 1, b"test", b"base");
    let mut b = base.fork(3);
    b.apply_update(&Update::Name(b"other".to_vec()));

    let mut once = base.duplicate();
    once.merge(&b);
    let mut twice = once.duplicate();
    twice.merge(&b);

    assert_eq!(once, twice);
}

#[test]
fn disjoint_writes_both_survive() {
    let base = doc_with(9, 1, b"old", b"old");
    let mut a = base.fork(2);
    let mut b = base.fork(3);
    a.apply_update(&Update::Name(b"x".to_vec()));
    b.apply_update(&Update::Description(b"y".to_vec()));

    let mut merged = a.duplicate();
    merged.merge(&b);

    assert_eq!(merged.name.value, b"x".to_vec());
    assert_eq!(merged.description.value, b"y".to_vec());
}

#[test]
fn same_field_conflict_resolves_deterministically() {
    let base = doc_with(9, 1, b"old", b"old");
    let mut a = base.fork(2);
    let mut b = base.fork(3);
    a.apply_update(&Update::Name(b"left".to_vec()));
    b.apply_update(&Update::Name(b"right".to_vec()));

    let mut ab = a.duplicate();
    ab.merge(&b);
    let mut ba = b.duplicate();
    ba.merge(&a);

    assert_eq!(ab.name.value, ba.name.value);
    let winner = ab.name.value.clone();
    assert!(winner == b"left".to_vec() || winner == b"right".to_vec());
    // equal stamps, so the larger actor's write wins
    assert_eq!(winner, b"right".to_vec());
}

#[test]
fn readonly_document_rejects_local_mutation() {
    let mut m = Manager::new(2, 8);
    let d = doc_with(5, 1, b"test", b"spec");
    m.register(5, d.duplicate(), PeerPermission::ReadOnly).unwrap();

    let r = m.apply_local_operation(5, &CrdtOperation::Update(Update::Name(b"new".to_vec())));
    assert_eq!(r.unwrap_err(), SyncError::PermissionDenied);

    let info = m.get(5).unwrap();
    assert_eq!(info.crdt, d);

    let r = m.apply_local_operation(5, &CrdtOperation::Delete);
    assert_eq!(r.unwrap_err(), SyncError::PermissionDenied);
    assert!(!m.get(5).unwrap().crdt.removed.marked);
}

#[test]
fn readonly_document_never_broadcasts() {
    let mut m = Manager::new(2, 8);
    m.register(5, doc_with(5, 1, b"a", b"b"), PeerPermission::ReadOnly).unwrap();
    let r = m.make_sync_envelope(5, PeerPermission::ReadWrite);
    assert_eq!(r.unwrap_err(), SyncError::PermissionDenied);
}

#[test]
fn first_sight_admits_exactly_one_entry() {
    let mut m = Manager::new(2, 8);
    let foreign = doc_with(42, 7, b"hello", b"from afar");
    let payload = foreign.save();

    assert!(m.get(42).is_none());
    let r = m.ingest_remote(42, payload, PeerPermission::ReadWrite, 3, 10);
    assert_eq!(r.unwrap(), SyncMessage::Created);

    let info = m.get(42).unwrap();
    assert_eq!(info.doc_id, 42);
    assert_eq!(info.crdt.doc_id, 42);
    assert_eq!(info.permission, PeerPermission::ReadWrite);
    assert_eq!(info.crdt.name.value, b"hello".to_vec());
    assert_eq!(m.shared.len(), 1);
}

#[test]
fn malformed_payload_leaves_documents_untouched() {
    let mut m = Manager::new(2, 8);
    let d = doc_with(5, 1, b"test", b"spec");
    m.register(5, d.duplicate(), PeerPermission::Owner).unwrap();

    let r = m.ingest_remote(5, vec![0xde, 0xad, 0xbe, 0xef], PeerPermission::ReadWrite, 3, 10);
    assert_eq!(r.unwrap_err(), SyncError::DecodeError);

    assert_eq!(m.shared.len(), 1);
    assert_eq!(m.get(5).unwrap().crdt, d);
    assert_eq!(m.failed_messages.len(), 1);
    assert_eq!(m.failed_messages[0].payload, vec![0xde, 0xad, 0xbe, 0xef]);
    assert_eq!(m.failed_messages[0].peer, 3);
    assert_eq!(m.failed_messages[0].time, 10);
}

#[test]
fn mismatched_snapshot_id_is_a_reconcile_failure() {
    let mut m = Manager::new(2, 8);
    m.register(5, doc_with(5, 1, b"a", b"b"), PeerPermission::Owner).unwrap();

    let other = doc_with(6, 2, b"c", b"d");
    let r = m.ingest_remote(5, other.save(), PeerPermission::ReadWrite, 3, 11);
    assert_eq!(r.unwrap_err(), SyncError::ReconcileError);
    assert_eq!(m.failed_messages.len(), 1);
    assert_eq!(m.get(5).unwrap().crdt.name.value, b"a".to_vec());
}

#[test]
fn full_failure_queue_rejects_with_queue_full() {
    let mut m = Manager::new(2, 0);
    let r = m.ingest_remote(5, vec![1, 2, 3], PeerPermission::ReadWrite, 3, 10);
    assert_eq!(r.unwrap_err(), SyncError::QueueFull);
    assert_eq!(m.failed_messages.len(), 0);
}

#[test]
fn failures_retry_in_fifo_order() {
    let mut m = Manager::new(2, 8);
    m.ingest_remote(1, vec![0xaa], PeerPermission::ReadWrite, 3, 10).unwrap_err();
    m.ingest_remote(1, vec![0xbb], PeerPermission::ReadWrite, 4, 11).unwrap_err();

    let first = m.take_next_failure().unwrap();
    assert_eq!(first.payload, vec![0xaa]);
    assert_eq!(first.peer, 3);
    let second = m.take_next_failure().unwrap();
    assert_eq!(second.payload, vec![0xbb]);
    assert!(m.take_next_failure().is_none());
}

#[test]
fn duplicate_registration_is_rejected() {
    let mut m = Manager::new(2, 8);
    m.register(5, doc_with(5, 1, b"a", b"b"), PeerPermission::Owner).unwrap();
    let r = m.register(5, doc_with(5, 2, b"c", b"d"), PeerPermission::Owner);
    assert_eq!(r.unwrap_err(), SyncError::DuplicateDocument);
    assert_eq!(m.shared.len(), 1);

    let r = m.apply_local_operation(5, &CrdtOperation::Create);
    assert_eq!(r.unwrap_err(), SyncError::DuplicateDocument);
}

#[test]
fn mutating_a_missing_document_is_rejected() {
    let mut m = Manager::new(2, 8);
    let r = m.apply_local_operation(5, &CrdtOperation::Update(Update::Name(b"x".to_vec())));
    assert_eq!(r.unwrap_err(), SyncError::UnknownDocument);
    let r = m.make_sync_envelope(5, PeerPermission::ReadWrite);
    assert_eq!(r.unwrap_err(), SyncError::UnknownDocument);
}

#[test]
fn permit_pool_never_exceeds_capacity() {
    let mut p = PermitPool::new(2);
    assert!(p.try_acquire());
    assert!(p.try_acquire());
    assert!(!p.try_acquire());
    assert_eq!(p.in_flight, 2);
    p.release();
    assert!(p.try_acquire());
    assert_eq!(p.in_flight, 2);
    p.release();
    p.release();
    assert_eq!(p.in_flight, 0);
}

#[test]
fn concurrent_fork_and_local_edit_both_survive_ingestion() {
    // create document D with name "test"
    let mut m = Manager::new(2, 8);
    m.apply_local_operation(7, &CrdtOperation::Create).unwrap();
    m.apply_local_operation(7, &CrdtOperation::Update(Update::Name(b"test".to_vec()))).unwrap();

    // peer P2 forks D and sets name to "alt"
    let envelope = m.make_sync_envelope(7, PeerPermission::ReadWrite).unwrap();
    let p2_base = Document::load(&envelope.data).unwrap();
    let mut p2 = p2_base.fork(99);
    p2.apply_update(&Update::Name(b"alt".to_vec()));

    // meanwhile the original sets description to "v2"
    m.apply_local_operation(7, &CrdtOperation::Update(Update::Description(b"v2".to_vec())))
        .unwrap();

    // after P2's snapshot is ingested, both edits hold at once
    let r = m.ingest_remote(7, p2.save(), PeerPermission::ReadWrite, 2, 50);
    assert_eq!(r.unwrap(), SyncMessage::Ingested);
    let info = m.get(7).unwrap();
    assert_eq!(info.crdt.name.value, b"alt".to_vec());
    assert_eq!(info.crdt.description.value, b"v2".to_vec());
}

#[test]
fn lifecycle_events_are_published_in_order() {
    let mut m = Manager::new(2, 8);
    m.apply_local_operation(7, &CrdtOperation::Create).unwrap();
    let snapshot = doc_with(8, 9, b"n", b"d").save();
    m.ingest_remote(8, snapshot, PeerPermission::ReadWrite, 1, 1).unwrap();
    let again = m.make_sync_envelope(8, PeerPermission::ReadWrite).unwrap();
    m.ingest_remote(8, again.data, PeerPermission::ReadWrite, 1, 2).unwrap();

    assert_eq!(
        m.events,
        vec![SyncMessage::Created, SyncMessage::Created, SyncMessage::Ingested]
    );
}

#[test]
fn ingesting_the_same_snapshot_twice_changes_nothing_more() {
    let mut m = Manager::new(2, 8);
    m.register(5, doc_with(5, 1, b"test", b"spec"), PeerPermission::Owner).unwrap();

    let mut fork = m.get(5).unwrap().crdt.fork(42);
    fork.apply_update(&Update::Name(b"renamed".to_vec()));
    let payload = fork.save();

    m.ingest_remote(5, payload.clone(), PeerPermission::ReadWrite, 2, 9).unwrap();
    let after_once = m.get(5).unwrap().crdt.clone();
    m.ingest_remote(5, payload, PeerPermission::ReadWrite, 2, 9).unwrap();
    let after_twice = m.get(5).unwrap().crdt.clone();

    assert_eq!(after_once.name.value, b"renamed".to_vec());
    assert_eq!(after_once.name, after_twice.name);
    assert_eq!(after_once.path, after_twice.path);
    assert_eq!(after_once.description, after_twice.description);
    assert_eq!(after_once.removed, after_twice.removed);
    assert_eq!(after_once.clock, after_twice.clock);
}

#[test]
fn soft_delete_replicates_like_any_write() {
    let mut m = Manager::new(2, 8);
    m.register(5, doc_with(5, 1, b"test", b"spec"), PeerPermission::Owner).unwrap();
    let row = m.apply_local_operation(5, &CrdtOperation::Delete).unwrap();
    assert!(row.removed);
    assert!(m.get(5).unwrap().crdt.removed.marked);
    // the entry itself stays in the registry
    assert_eq!(m.shared.len(), 1);
}

#[test]
fn peer_sync_state_tracks_each_peer_separately() {
    let mut m = Manager::new(2, 8);
    m.register(5, doc_with(5, 1, b"a", b"b"), PeerPermission::Owner).unwrap();

    assert!(m.record_peer_sync(5, 10, 2));
    assert!(m.record_peer_sync(5, 11, 2));
    assert!(m.record_peer_sync(5, 10, 3));
    assert!(!m.record_peer_sync(6, 10, 3));

    let entries = &m.get(5).unwrap().shared;
    assert_eq!(entries.len(), 2);
    assert_eq!(entries[0].peer, 10);
    assert_eq!(entries[0].acked_clock, 3);
    assert_eq!(entries[1].peer, 11);
    assert_eq!(entries[1].acked_clock, 2);
}

#[test]
fn mirror_row_carries_the_field_values() {
    let d = doc_with(5, 1, b"a name", b"a description");
    let row = docsync::store::mirror_row(&d);
    assert_eq!(row.doc_id, 5);
    assert_eq!(row.name, b"a name".to_vec());
    assert_eq!(row.description, b"a description".to_vec());
    assert_eq!(row.path, Vec::<u8>::new());
    assert!(!row.removed);
}
