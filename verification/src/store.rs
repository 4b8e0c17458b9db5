use vstd::prelude::*;

use crate::codec::spec_encode_doc;
use crate::document::{doc_join, lemma_join_after_fork, lemma_join_wf, new_doc_view, set_removed,
    spec_apply_update, CrdtOperation, DocView, Document};
use crate::errors::SyncError;
use crate::envelope::Invite;
use crate::order::copy_bytes;
use crate::permission::PeerPermission;
use crate::permits::PermitPool;

verus! {

/// A lifecycle notification published on the event bus: a document was
/// created locally, or a remote change was ingested.
#[derive(Clone, Copy, Debug, PartialEq, Eq, Structural)]
pub enum SyncMessage {
    Ingested,
    Created,
}

/// Per-peer sync metadata for one document: the newest clock this peer
/// is known to hold.
#[derive(Clone, Copy, Debug, PartialEq, Eq, Structural)]
pub struct PeerSync {
    pub peer: u64,
    pub acked_clock: u64,
}

/// An ingestion attempt that could not be applied: the raw payload and
/// where and when it came from, kept in FIFO order for later retry.
#[derive(Debug, Clone)]
pub struct FailureRecord {
    pub payload: Vec<u8>,
    pub peer: u64,
    pub time: u64,
}

/// The mathematical value of a failure record.
#[verifier::ext_equal]
pub struct FailView {
    pub payload: Seq<u8>,
    pub peer: u64,
    pub time: u64,
}

impl View for FailureRecord {
    type V = FailView;

    open spec fn view(&self) -> FailView {
        FailView { payload: self.payload@, peer: self.peer, time: self.time }
    }
}

/// One registry entry: a document, the permission this replica holds on
/// it, and its per-peer sync state. Owned exclusively by the `Manager`.
#[derive(Debug, Clone)]
pub struct DocInfo {
    pub doc_id: u128,
    pub permission: PeerPermission,
    pub crdt: Document,
    pub shared: Vec<PeerSync>,
}

/// The mathematical value of a registry entry.
#[verifier::ext_equal]
pub struct DocInfoView {
    pub doc_id: u128,
    pub permission: PeerPermission,
    pub doc: DocView,
    pub shared: Seq<PeerSync>,
}

impl View for DocInfo {
    type V = DocInfoView;

    open spec fn view(&self) -> DocInfoView {
        DocInfoView {
            doc_id: self.doc_id,
            permission: self.permission,
            doc: self.crdt@,
            shared: self.shared@,
        }
    }
}

/// The newest clock `peer` is known to hold, by the sync entries
/// recorded so far.
pub open spec fn peer_acked(s: Seq<PeerSync>, peer: u64) -> Option<u64>
    decreases s.len(),
{
    if s.len() == 0 {
        None
    } else if s[0].peer == peer {
        Some(s[0].acked_clock)
    } else {
        peer_acked(s.skip(1), peer)
    }
}

/// Appending a sync entry answers for its peer only where no earlier
/// entry did, and changes no other peer's answer.
proof fn lemma_peer_acked_push(s: Seq<PeerSync>, x: PeerSync, q: u64)
    ensures
        peer_acked(s.push(x), q) == (if peer_acked(s, q) is Some {
            peer_acked(s, q)
        } else if x.peer == q {
            Some(x.acked_clock)
        } else {
            None
        }),
    decreases s.len(),
{
    if s.len() == 0 {
        assert(s.push(x)[0] == x);
        assert(s.push(x).skip(1) =~= Seq::<PeerSync>::empty());
        assert(peer_acked(Seq::<PeerSync>::empty(), q) is None);
        assert(peer_acked(s, q) is None);
    } else {
        assert(s.push(x)[0] == s[0]);
        assert(s.push(x).skip(1) =~= s.skip(1).push(x));
        lemma_peer_acked_push(s.skip(1), x, q);
    }
}

/// Overwriting the first entry of a peer answers for that peer with the
/// new clock and changes no other peer's answer.
proof fn lemma_peer_acked_update(s: Seq<PeerSync>, i: int, x: PeerSync, q: u64)
    requires
        0 <= i < s.len(),
        s[i].peer == x.peer,
        forall|j: int| 0 <= j < i ==> (#[trigger] s[j].peer) != x.peer,
    ensures
        peer_acked(s.update(i, x), q) == (if q == x.peer {
            Some(x.acked_clock)
        } else {
            peer_acked(s, q)
        }),
    decreases i,
{
    if i == 0 {
        assert(s.update(0, x).skip(1) =~= s.skip(1));
    } else {
        assert(s.update(i, x).skip(1) =~= s.skip(1).update(i - 1, x));
        assert(forall|j: int| 0 <= j < i - 1 ==> (#[trigger] s.skip(1)[j].peer) != x.peer) by {
            assert(forall|j: int| 0 <= j < i - 1 ==> s.skip(1)[j] == s[j + 1]);
        }
        lemma_peer_acked_update(s.skip(1), i - 1, x, q);
    }
}

impl DocInfo {
    /// Record that `peer` is known to hold this document up to `clock`;
    /// every other peer's sync state stays as it was.
    pub fn note_peer_sync(&mut self, peer: u64, clock: u64)
        ensures
            final(self).doc_id == old(self).doc_id,
            final(self).permission == old(self).permission,
            final(self).crdt == old(self).crdt,
            peer_acked(final(self).shared@, peer) == Some(clock),
            forall|q: u64|
                q != peer ==> peer_acked(final(self).shared@, q) == peer_acked(
                    old(self).shared@,
                    q,
                ),
    {
        let n = self.shared.len();
        let mut i: usize = 0;
        while i < n
            invariant
                0 <= i <= n,
                n == self.shared@.len(),
                *self == *old(self),
                forall|j: int| 0 <= j < i ==> (#[trigger] self.shared@[j].peer) != peer,
            decreases n - i,
        {
            let hit = self.shared[i].peer == peer;
            proof {
                if hit {
                    assert(old(self).shared@[i as int].peer == peer);
                }
            }
            if hit {
                let entry = PeerSync { peer, acked_clock: clock };
                self.shared.set(i, entry);
                proof {
                    assert(self.shared@ == old(self).shared@.update(i as int, entry));
                    assert forall|q: u64|
                        peer_acked(self.shared@, q) == (if q == peer {
                            Some(clock)
                        } else {
                            peer_acked(old(self).shared@, q)
                        }) by {
                        lemma_peer_acked_update(old(self).shared@, i as int, entry, q);
                    }
                }
                return ;
            }
            i = i + 1;
        }
        let entry = PeerSync { peer, acked_clock: clock };
        self.shared.push(entry);
        proof {
            assert forall|q: u64|
                peer_acked(self.shared@, q) == (if q == peer {
                    Some(clock)
                } else {
                    peer_acked(old(self).shared@, q)
                }) by {
                lemma_peer_acked_push(old(self).shared@, entry, q);
                if q == peer && peer_acked(old(self).shared@, q) is Some {
                    lemma_peer_acked_in_range(old(self).shared@, q);
                }
            }
        }
    }
}

/// A peer that `peer_acked` answers for has an entry.
proof fn lemma_peer_acked_in_range(s: Seq<PeerSync>, q: u64)
    requires
        peer_acked(s, q) is Some,
    ensures
        exists|j: int| 0 <= j < s.len() && (#[trigger] s[j].peer) == q,
    decreases s.len(),
{
    if s.len() > 0 && s[0].peer != q {
        lemma_peer_acked_in_range(s.skip(1), q);
        let j = choose|j: int| 0 <= j < s.skip(1).len() && (#[trigger] s.skip(1)[j].peer) == q;
        assert(s[j + 1].peer == q);
    }
}

/// The typed field values of one document, handed to the mirror
/// collaborator as bound parameters after every successful mutation.
#[derive(Debug, Clone)]
pub struct MirrorRow {
    pub doc_id: u128,
    pub name: Vec<u8>,
    pub path: Vec<u8>,
    pub description: Vec<u8>,
    pub removed: bool,
}

/// Whether `row` carries exactly the field values of document state `d`.
pub open spec fn row_of(d: DocView, row: MirrorRow) -> bool {
    &&& row.doc_id == d.doc_id
    &&& row.name@ == d.name.value
    &&& row.path@ == d.path.value
    &&& row.description@ == d.description.value
    &&& row.removed == d.removed.marked
}

/// The typed field values of a document, ready for the mirror.
pub fn mirror_row(doc: &Document) -> (r: MirrorRow)
    ensures
        row_of(doc@, r),
{
    MirrorRow {
        doc_id: doc.doc_id,
        name: copy_bytes(&doc.name.value),
        path: copy_bytes(&doc.path.value),
        description: copy_bytes(&doc.description.value),
        removed: doc.removed.marked,
    }
}

/// Whether some registry entry carries this document id.
pub open spec fn has_doc(s: Seq<DocInfoView>, id: u128) -> bool {
    exists|j: int| 0 <= j < s.len() && (#[trigger] s[j].doc_id) == id
}

/// The index of the first registry entry carrying this document id, or
/// a negative value when none does.
pub open spec fn find_doc(s: Seq<DocInfoView>, id: u128) -> int
    decreases s.len(),
{
    if s.len() == 0 {
        -1
    } else if s[0].doc_id == id {
        0
    } else {
        let r = find_doc(s.skip(1), id);
        if r < 0 {
            -1
        } else {
            r + 1
        }
    }
}

/// No two registry entries carry the same document id.
pub open spec fn unique_ids(s: Seq<DocInfoView>) -> bool {
    forall|i: int, j: int|
        #![trigger s[i].doc_id, s[j].doc_id]
        0 <= i < j < s.len() ==> s[i].doc_id != s[j].doc_id
}

/// `find_doc` finds exactly the entries `has_doc` promises: a valid
/// index carrying `id` when one exists, a negative value otherwise, and
/// never one past an earlier match.
pub proof fn lemma_find_doc(s: Seq<DocInfoView>, id: u128)
    ensures
        has_doc(s, id) <==> (0 <= find_doc(s, id) < s.len() && s[find_doc(s, id)].doc_id == id),
        !has_doc(s, id) ==> find_doc(s, id) == -1,
        forall|j: int| 0 <= j < find_doc(s, id) ==> (#[trigger] s[j].doc_id) != id,
    decreases s.len(),
{
    if s.len() == 0 {
    } else if s[0].doc_id == id {
    } else {
        lemma_find_doc(s.skip(1), id);
        assert(forall|j: int| 0 <= j < s.skip(1).len() ==> s.skip(1)[j] == s[j + 1]);
        if has_doc(s.skip(1), id) {
            let j = choose|j: int| 0 <= j < s.skip(1).len() && (#[trigger] s.skip(1)[j].doc_id)
                == id;
            assert(s[j + 1].doc_id == id);
        }
        if has_doc(s, id) {
            let j = choose|j: int| 0 <= j < s.len() && (#[trigger] s[j].doc_id) == id;
            assert(j != 0);
            assert(s.skip(1)[j - 1].doc_id == id);
        }
        assert forall|j: int| 0 <= j < find_doc(s, id) implies (#[trigger] s[j].doc_id) != id by {
            if j > 0 {
                assert(s.skip(1)[j - 1] == s[j]);
                assert(s.skip(1)[j - 1].doc_id != id);
            }
        }
    }
}

/// When an entry at `i` carries `id` and no earlier one does, `find_doc`
/// answers `i`.
pub proof fn lemma_find_doc_first(s: Seq<DocInfoView>, id: u128, i: int)
    requires
        0 <= i < s.len(),
        s[i].doc_id == id,
        forall|j: int| 0 <= j < i ==> (#[trigger] s[j].doc_id) != id,
    ensures
        find_doc(s, id) == i,
    decreases i,
{
    if i == 0 {
    } else {
        assert(forall|j: int| 0 <= j < s.skip(1).len() ==> s.skip(1)[j] == s[j + 1]);
        lemma_find_doc_first(s.skip(1), id, i - 1);
    }
}

/// Whether the document under `id`, if any, can still take a local
/// write without exhausting its clock.
pub open spec fn doc_clock_ok(s: Seq<DocInfoView>, id: u128) -> bool {
    has_doc(s, id) ==> s[find_doc(s, id)].doc.clock < u64::MAX
}

/// The registry of replicated documents and everything orchestrated
/// around it: the permission gate on local mutation and broadcast, the
/// fork-reconcile-merge ingestion of foreign snapshots under a bounded
/// permit pool, the published lifecycle events, and the FIFO queue of
/// failed ingestions.
pub struct Manager {
    /// The documents shared with peers, ids unique.
    pub shared: Vec<DocInfo>,
    /// The log of lifecycle events published so far; a broadcast channel
    /// fans them out to subscribers, who may miss events when lagging.
    pub events: Vec<SyncMessage>,
    /// The bounded pool gating concurrent fork-reconcile-merge work.
    pub permits: PermitPool,
    /// Ingestions that could not be applied, oldest first.
    pub failed_messages: Vec<FailureRecord>,
    /// How many failure records are kept at most.
    pub failure_capacity: usize,
    /// The next fresh branch actor to mint for a scratch fork.
    pub next_actor: u64,
}

impl Manager {
    /// The mathematical value of the registry.
    pub open spec fn docs(&self) -> Seq<DocInfoView> {
        self.shared@.map_values(|d: DocInfo| d@)
    }

    /// The mathematical value of the failure queue.
    pub open spec fn fails(&self) -> Seq<FailView> {
        self.failed_messages@.map_values(|f: FailureRecord| f@)
    }

    /// The registry invariant: document ids are unique, every entry's
    /// document is well-formed and carries the entry's id, the permit
    /// pool is idle between calls, and the failure queue respects its
    /// capacity.
    pub open spec fn wf(&self) -> bool {
        &&& self.permits.wf()
        &&& self.permits.in_flight == 0
        &&& unique_ids(self.docs())
        &&& forall|i: int|
            0 <= i < self.docs().len() ==> ((#[trigger] self.docs()[i]).doc.wf()
                && self.docs()[i].doc.doc_id == self.docs()[i].doc_id)
        &&& self.fails().len() <= self.failure_capacity
    }

    /// An empty registry with `permit_capacity` merge permits and room
    /// for `failure_capacity` failure records.
    pub fn new(permit_capacity: u64, failure_capacity: usize) -> (r: Manager)
        requires
            permit_capacity >= 1,
        ensures
            r.wf(),
            r.docs() == Seq::<DocInfoView>::empty(),
            r.events@ == Seq::<SyncMessage>::empty(),
            r.fails() == Seq::<FailView>::empty(),
            r.permits.capacity == permit_capacity,
            r.failure_capacity == failure_capacity,
    {
        let r = Manager {
            shared: Vec::new(),
            events: Vec::new(),
            permits: PermitPool::new(permit_capacity),
            failed_messages: Vec::new(),
            failure_capacity,
            next_actor: 1,
        };
        assert(r.docs() =~= Seq::<DocInfoView>::empty());
        assert(r.fails() =~= Seq::<FailView>::empty());
        r
    }

    /// Where the entry for `doc_id` sits, if anywhere.
    fn position_of(&self, doc_id: u128) -> (r: Option<usize>)
        ensures
            match r {
                Some(i) => {
                    &&& 0 <= i < self.docs().len()
                    &&& self.docs()[i as int].doc_id == doc_id
                    &&& find_doc(self.docs(), doc_id) == i
                    &&& has_doc(self.docs(), doc_id)
                },
                None => !has_doc(self.docs(), doc_id) && find_doc(self.docs(), doc_id) == -1,
            },
    {
        let mut i: usize = 0;
        let n = self.shared.len();
        while i < n
            invariant
                0 <= i <= n,
                n == self.docs().len(),
                forall|j: int| 0 <= j < i ==> (#[trigger] self.docs()[j].doc_id) != doc_id,
            decreases n - i,
        {
            if self.shared[i].doc_id == doc_id {
                proof {
                    assert(self.docs()[i as int] == self.shared@[i as int]@);
                    assert(self.docs()[i as int].doc_id == doc_id);
                    lemma_find_doc_first(self.docs(), doc_id, i as int);
                    assert(has_doc(self.docs(), doc_id));
                }
                return Some(i);
            }
            i = i + 1;
        }
        proof {
            lemma_find_doc(self.docs(), doc_id);
        }
        None
    }

    /// Shared read access to one entry.
    pub fn get(&self, doc_id: u128) -> (r: Option<&DocInfo>)
        ensures
            match r {
                Some(info) => has_doc(self.docs(), doc_id) && info@ == self.docs()[find_doc(
                    self.docs(),
                    doc_id,
                )],
                None => !has_doc(self.docs(), doc_id),
            },
    {
        match self.position_of(doc_id) {
            Some(i) => Some(&self.shared[i]),
            None => None,
        }
    }

    /// Create a new registry entry under `doc_id`. Fails with
    /// `DuplicateDocument`, touching nothing, exactly when the id
    /// already exists.
    pub fn register(&mut self, doc_id: u128, document: Document, permission: PeerPermission) -> (r:
        Result<(), SyncError>)
        requires
            old(self).wf(),
            document@.wf(),
            document@.doc_id == doc_id,
        ensures
            final(self).wf(),
            has_doc(old(self).docs(), doc_id) ==> r == Err::<(), SyncError>(
                SyncError::DuplicateDocument,
            ) && *final(self) == *old(self),
            !has_doc(old(self).docs(), doc_id) ==> {
                &&& r == Ok::<(), SyncError>(())
                &&& final(self).docs() == old(self).docs().push(
                    DocInfoView {
                        doc_id,
                        permission,
                        doc: document@,
                        shared: Seq::<PeerSync>::empty(),
                    },
                )
                &&& final(self).events@ == old(self).events@.push(SyncMessage::Created)
                &&& final(self).fails() == old(self).fails()
                &&& final(self).permits == old(self).permits
                &&& final(self).failure_capacity == old(self).failure_capacity
                &&& final(self).next_actor == old(self).next_actor
            },
    {
        match self.position_of(doc_id) {
            Some(_) => Err(SyncError::DuplicateDocument),
            None => {
                self.shared.push(
                    DocInfo { doc_id, permission, crdt: document, shared: Vec::new() },
                );
                self.events.push(SyncMessage::Created);
                proof {
                    assert(self.docs() =~= old(self).docs().push(
                        DocInfoView {
                            doc_id,
                            permission,
                            doc: document@,
                            shared: Seq::<PeerSync>::empty(),
                        },
                    ));
                    assert(self.fails() =~= old(self).fails());
                }
                Ok(())
            },
        }
    }

    /// Record a failed ingestion for later retry, or reject it outright
    /// when the failure queue is full.
    fn record_failure(&mut self, payload: Vec<u8>, peer: u64, now: u64, err: SyncError) -> (r:
        Result<SyncMessage, SyncError>)
        requires
            old(self).wf(),
        ensures
            final(self).wf(),
            final(self).docs() == old(self).docs(),
            final(self).events@ == old(self).events@,
            final(self).permits == old(self).permits,
            final(self).failure_capacity == old(self).failure_capacity,
            final(self).next_actor == old(self).next_actor,
            old(self).fails().len() < old(self).failure_capacity ==> r == Err::<
                SyncMessage,
                SyncError,
            >(err) && final(self).fails() == old(self).fails().push(
                FailView { payload: payload@, peer, time: now },
            ),
            old(self).fails().len() >= old(self).failure_capacity ==> r == Err::<
                SyncMessage,
                SyncError,
            >(SyncError::QueueFull) && final(self).fails() == old(self).fails(),
    {
        if self.failed_messages.len() < self.failure_capacity {
            self.failed_messages.push(FailureRecord { payload, peer, time: now });
            proof {
                assert(self.fails() =~= old(self).fails().push(
                    FailView { payload: payload@, peer, time: now },
                ));
                assert(self.docs() =~= old(self).docs());
            }
            Err(err)
        } else {
            Err(SyncError::QueueFull)
        }
    }

    /// Hand out the oldest recorded failure for a retry sweep; entries
    /// leave in the order they arrived.
    pub fn take_next_failure(&mut self) -> (r: Option<FailureRecord>)
        requires
            old(self).wf(),
        ensures
            final(self).wf(),
            final(self).docs() == old(self).docs(),
            final(self).events@ == old(self).events@,
            final(self).permits == old(self).permits,
            final(self).failure_capacity == old(self).failure_capacity,
            final(self).next_actor == old(self).next_actor,
            old(self).fails().len() == 0 ==> r is None && final(self).fails() == old(self).fails(),
            old(self).fails().len() > 0 ==> (match r {
                Some(f) => f@ == old(self).fails()[0] && final(self).fails() == old(
                    self,
                ).fails().skip(1),
                None => false,
            }),
    {
        if self.failed_messages.len() == 0 {
            None
        } else {
            let f = self.failed_messages.remove(0);
            proof {
                assert(self.fails() =~= old(self).fails().skip(1));
                assert(self.docs() =~= old(self).docs());
            }
            Some(f)
        }
    }

    /// Translate an externally issued intent into a CRDT field mutation
    /// and commit it, gated on this replica's permission: a ReadOnly
    /// document never originates a local mutation, and the failed call
    /// changes nothing. On success the new field values are returned for
    /// the mirror collaborator.
    pub fn apply_local_operation(&mut self, doc_id: u128, intent: &CrdtOperation) -> (r: Result<
        MirrorRow,
        SyncError,
    >)
        requires
            old(self).wf(),
            old(self).next_actor < u64::MAX,
            doc_clock_ok(old(self).docs(), doc_id),
        ensures
            final(self).wf(),
            final(self).permits == old(self).permits,
            final(self).failure_capacity == old(self).failure_capacity,
            final(self).fails() == old(self).fails(),
            *intent is Create && has_doc(old(self).docs(), doc_id) ==> r == Err::<
                MirrorRow,
                SyncError,
            >(SyncError::DuplicateDocument) && *final(self) == *old(self),
            *intent is Create && !has_doc(old(self).docs(), doc_id) ==> {
                let created = new_doc_view(doc_id, old(self).next_actor);
                &&& (r matches Ok(row) && row_of(created, row))
                &&& final(self).docs() == old(self).docs().push(
                    DocInfoView {
                        doc_id,
                        permission: PeerPermission::Owner,
                        doc: created,
                        shared: Seq::<PeerSync>::empty(),
                    },
                )
                &&& final(self).events@ == old(self).events@.push(SyncMessage::Created)
                &&& final(self).next_actor == old(self).next_actor + 1
            },
            !(*intent is Create) && !has_doc(old(self).docs(), doc_id) ==> r == Err::<
                MirrorRow,
                SyncError,
            >(SyncError::UnknownDocument) && *final(self) == *old(self),
            !(*intent is Create) && has_doc(old(self).docs(), doc_id) && !old(self).docs()[find_doc(
                old(self).docs(),
                doc_id,
            )].permission.may_write() ==> r == Err::<MirrorRow, SyncError>(
                SyncError::PermissionDenied,
            ) && *final(self) == *old(self),
            !(*intent is Create) && has_doc(old(self).docs(), doc_id) && old(self).docs()[find_doc(
                old(self).docs(),
                doc_id,
            )].permission.may_write() ==> {
                let fi = find_doc(old(self).docs(), doc_id);
                let before = old(self).docs()[fi];
                let after = match *intent {
                    CrdtOperation::Update(u) => spec_apply_update(before.doc, u),
                    _ => set_removed(before.doc),
                };
                &&& (r matches Ok(row) && row_of(after, row))
                &&& final(self).docs() == old(self).docs().update(
                    fi,
                    DocInfoView { doc: after, ..before },
                )
                &&& final(self).events@ == old(self).events@
                &&& final(self).next_actor == old(self).next_actor
            },
    {
        match intent {
            CrdtOperation::Create => {
                match self.position_of(doc_id) {
                    Some(_) => Err(SyncError::DuplicateDocument),
                    None => {
                        let actor = self.next_actor;
                        self.next_actor = self.next_actor + 1;
                        let d = Document::new(doc_id, actor);
                        let row = mirror_row(&d);
                        self.shared.push(
                            DocInfo {
                                doc_id,
                                permission: PeerPermission::Owner,
                                crdt: d,
                                shared: Vec::new(),
                            },
                        );
                        self.events.push(SyncMessage::Created);
                        proof {
                            assert(self.docs() =~= old(self).docs().push(
                                DocInfoView {
                                    doc_id,
                                    permission: PeerPermission::Owner,
                                    doc: new_doc_view(doc_id, old(self).next_actor),
                                    shared: Seq::<PeerSync>::empty(),
                                },
                            ));
                            assert(self.fails() =~= old(self).fails());
                        }
                        Ok(row)
                    },
                }
            },
            CrdtOperation::Update(u) => {
                match self.position_of(doc_id) {
                    None => Err(SyncError::UnknownDocument),
                    Some(i) => {
                        if !self.shared[i].permission.is_writable() {
                            return Err(SyncError::PermissionDenied);
                        }
                        let mut info = self.shared.remove(i);
                        info.crdt.apply_update(u);
                        let row = mirror_row(&info.crdt);
                        self.shared.insert(i, info);
                        proof {
                            let fi = find_doc(old(self).docs(), doc_id);
                            let before = old(self).docs()[fi];
                            assert(self.docs() =~= old(self).docs().update(
                                fi,
                                DocInfoView { doc: spec_apply_update(before.doc, *u), ..before },
                            ));
                            assert(self.fails() =~= old(self).fails());
                        }
                        Ok(row)
                    },
                }
            },
            CrdtOperation::Delete => {
                match self.position_of(doc_id) {
                    None => Err(SyncError::UnknownDocument),
                    Some(i) => {
                        if !self.shared[i].permission.is_writable() {
                            return Err(SyncError::PermissionDenied);
                        }
                        let mut info = self.shared.remove(i);
                        info.crdt.mark_removed();
                        let row = mirror_row(&info.crdt);
                        self.shared.insert(i, info);
                        proof {
                            let fi = find_doc(old(self).docs(), doc_id);
                            let before = old(self).docs()[fi];
                            assert(self.docs() =~= old(self).docs().update(
                                fi,
                                DocInfoView { doc: set_removed(before.doc), ..before },
                            ));
                            assert(self.fails() =~= old(self).fails());
                        }
                        Ok(row)
                    },
                }
            },
        }
    }

    /// Absorb a foreign snapshot addressed to `doc_id`. A payload that
    /// does not decode, or that declares a different id, mutates no
    /// document: it is recorded for retry (or rejected with `QueueFull`)
    /// and reported. An unknown id admits the candidate as a new entry
    /// under the claimed permission. A known id runs fork-reconcile-
    /// merge under one permit from the bounded pool, so the canonical
    /// document moves directly from its old state to the join with the
    /// candidate — concurrent local edits survive.
    pub fn ingest_remote(
        &mut self,
        doc_id: u128,
        payload: Vec<u8>,
        claimed: PeerPermission,
        peer: u64,
        now: u64,
    ) -> (r: Result<SyncMessage, SyncError>)
        requires
            old(self).wf(),
            old(self).next_actor < u64::MAX,
        ensures
            final(self).wf(),
            final(self).permits == old(self).permits,
            final(self).failure_capacity == old(self).failure_capacity,
            ({
                let parsed = crate::codec::spec_parse_doc(payload@);
                let bad = parsed is None || parsed.unwrap().doc_id != doc_id;
                let err = if parsed is None {
                    SyncError::DecodeError
                } else {
                    SyncError::ReconcileError
                };
                &&& (bad && old(self).fails().len() < old(self).failure_capacity ==> {
                    &&& r == Err::<SyncMessage, SyncError>(err)
                    &&& final(self).docs() == old(self).docs()
                    &&& final(self).events@ == old(self).events@
                    &&& final(self).fails() == old(self).fails().push(
                        FailView { payload: payload@, peer, time: now },
                    )
                    &&& final(self).next_actor == old(self).next_actor
                })
                &&& (bad && old(self).fails().len() >= old(self).failure_capacity ==> {
                    &&& r == Err::<SyncMessage, SyncError>(SyncError::QueueFull)
                    &&& final(self).docs() == old(self).docs()
                    &&& final(self).events@ == old(self).events@
                    &&& final(self).fails() == old(self).fails()
                    &&& final(self).next_actor == old(self).next_actor
                })
                &&& (!bad && !has_doc(old(self).docs(), doc_id) ==> {
                    &&& r == Ok::<SyncMessage, SyncError>(SyncMessage::Created)
                    &&& final(self).docs() == old(self).docs().push(
                        DocInfoView {
                            doc_id,
                            permission: claimed,
                            doc: parsed.unwrap(),
                            shared: Seq::<PeerSync>::empty(),
                        },
                    )
                    &&& final(self).events@ == old(self).events@.push(SyncMessage::Created)
                    &&& final(self).fails() == old(self).fails()
                    &&& final(self).next_actor == old(self).next_actor
                })
                &&& (!bad && has_doc(old(self).docs(), doc_id) ==> {
                    let fi = find_doc(old(self).docs(), doc_id);
                    let before = old(self).docs()[fi];
                    &&& r == Ok::<SyncMessage, SyncError>(SyncMessage::Ingested)
                    &&& final(self).docs() == old(self).docs().update(
                        fi,
                        DocInfoView { doc: doc_join(before.doc, parsed.unwrap()), ..before },
                    )
                    &&& final(self).events@ == old(self).events@.push(SyncMessage::Ingested)
                    &&& final(self).fails() == old(self).fails()
                    &&& final(self).next_actor == old(self).next_actor + 1
                })
            }),
    {
        let candidate = match Document::load(&payload) {
            Some(c) => c,
            None => {
                return self.record_failure(payload, peer, now, SyncError::DecodeError);
            },
        };
        if candidate.doc_id != doc_id {
            return self.record_failure(payload, peer, now, SyncError::ReconcileError);
        }
        match self.position_of(doc_id) {
            None => {
                self.shared.push(
                    DocInfo { doc_id, permission: claimed, crdt: candidate, shared: Vec::new() },
                );
                self.events.push(SyncMessage::Created);
                proof {
                    assert(self.docs() =~= old(self).docs().push(
                        DocInfoView {
                            doc_id,
                            permission: claimed,
                            doc: crate::codec::spec_parse_doc(payload@).unwrap(),
                            shared: Seq::<PeerSync>::empty(),
                        },
                    ));
                    assert(self.fails() =~= old(self).fails());
                }
                Ok(SyncMessage::Created)
            },
            Some(i) => {
                let granted = self.permits.try_acquire();
                assert(granted);
                let actor = self.next_actor;
                self.next_actor = self.next_actor + 1;
                let mut info = self.shared.remove(i);
                let mut scratch = info.crdt.fork(actor);
                scratch.reconcile(&candidate);
                info.crdt.merge(&scratch);
                self.shared.insert(i, info);
                self.permits.release();
                self.events.push(SyncMessage::Ingested);
                proof {
                    let fi = find_doc(old(self).docs(), doc_id);
                    let before = old(self).docs()[fi];
                    let cand = crate::codec::spec_parse_doc(payload@).unwrap();
                    lemma_join_after_fork(before.doc, cand, actor);
                    lemma_join_wf(before.doc, cand);
                    assert(self.docs() =~= old(self).docs().update(
                        fi,
                        DocInfoView { doc: doc_join(before.doc, cand), ..before },
                    ));
                    assert(self.fails() =~= old(self).fails());
                }
                Ok(SyncMessage::Ingested)
            },
        }
    }

    /// Note in one document's sync state that `peer` is known to hold it
    /// up to `clock`; nothing else moves. Answers whether the document
    /// exists.
    pub fn record_peer_sync(&mut self, doc_id: u128, peer: u64, clock: u64) -> (r: bool)
        requires
            old(self).wf(),
        ensures
            final(self).wf(),
            r == has_doc(old(self).docs(), doc_id),
            !r ==> *final(self) == *old(self),
            r ==> ({
                let fi = find_doc(old(self).docs(), doc_id);
                let before = old(self).docs()[fi];
                &&& final(self).docs().len() == old(self).docs().len()
                &&& (forall|j: int|
                    0 <= j < old(self).docs().len() && j != fi ==> final(self).docs()[j] == old(
                        self,
                    ).docs()[j])
                &&& final(self).docs()[fi].doc_id == before.doc_id
                &&& final(self).docs()[fi].permission == before.permission
                &&& final(self).docs()[fi].doc == before.doc
                &&& peer_acked(final(self).docs()[fi].shared, peer) == Some(clock)
                &&& (forall|q: u64|
                    q != peer ==> peer_acked(final(self).docs()[fi].shared, q) == peer_acked(
                        before.shared,
                        q,
                    ))
                &&& final(self).events@ == old(self).events@
                &&& final(self).fails() == old(self).fails()
                &&& final(self).permits == old(self).permits
                &&& final(self).next_actor == old(self).next_actor
                &&& final(self).failure_capacity == old(self).failure_capacity
            }),
    {
        match self.position_of(doc_id) {
            None => false,
            Some(i) => {
                let mut info = self.shared.remove(i);
                info.note_peer_sync(peer, clock);
                self.shared.insert(i, info);
                proof {
                    assert(self.shared@ =~= old(self).shared@.update(
                        i as int,
                        self.shared@[i as int],
                    ));
                    assert(self.docs() =~= old(self).docs().update(
                        i as int,
                        self.docs()[i as int],
                    ));
                    assert(self.fails() =~= old(self).fails());
                }
                true
            },
        }
    }

    /// Build the outbound broadcast envelope for one document.
    /// Permission is enforced here, before any broadcast is framed: a
    /// ReadOnly document never originates one.
    pub fn make_sync_envelope(&self, doc_id: u128, grant: PeerPermission) -> (r: Result<
        Invite,
        SyncError,
    >)
        requires
            self.wf(),
        ensures
            !has_doc(self.docs(), doc_id) ==> r == Err::<Invite, SyncError>(
                SyncError::UnknownDocument,
            ),
            has_doc(self.docs(), doc_id) && !self.docs()[find_doc(
                self.docs(),
                doc_id,
            )].permission.may_write() ==> r == Err::<Invite, SyncError>(
                SyncError::PermissionDenied,
            ),
            has_doc(self.docs(), doc_id) && self.docs()[find_doc(
                self.docs(),
                doc_id,
            )].permission.may_write() ==> (match r {
                Ok(inv) => {
                    &&& inv.id == doc_id
                    &&& inv.permission == grant
                    &&& inv.data@ == spec_encode_doc(
                        self.docs()[find_doc(self.docs(), doc_id)].doc,
                    )
                },
                Err(_) => false,
            }),
    {
        match self.position_of(doc_id) {
            None => Err(SyncError::UnknownDocument),
            Some(i) => {
                if !self.shared[i].permission.is_writable() {
                    return Err(SyncError::PermissionDenied);
                }
                Ok(Invite { id: doc_id, data: self.shared[i].crdt.save(), permission: grant })
            },
        }
    }
}

} // verus!
