use vstd::prelude::*;

use crate::order::copy_bytes;
use crate::register::{lemma_reg_join_absorbs, lemma_reg_join_associative,
    lemma_reg_join_commutative, lemma_reg_join_idempotent, reg_join, RegView, Register};

verus! {

/// The mathematical value of the soft-delete marker: a boolean register
/// under the same stamp order as the value registers.
#[verifier::ext_equal]
pub struct FlagView {
    pub time: u64,
    pub actor: u64,
    pub marked: bool,
}

/// The soft-delete marker of a document.
#[derive(Debug, Clone, Copy, PartialEq, Eq, Structural)]
pub struct Flag {
    pub time: u64,
    pub actor: u64,
    pub marked: bool,
}

impl View for Flag {
    type V = FlagView;

    open spec fn view(&self) -> FlagView {
        FlagView { time: self.time, actor: self.actor, marked: self.marked }
    }
}

/// The total order on marker writes: time, then actor, then the raised
/// marker over the cleared one.
pub open spec fn flag_lt(a: FlagView, b: FlagView) -> bool {
    ||| a.time < b.time
    ||| (a.time == b.time && a.actor < b.actor)
    ||| (a.time == b.time && a.actor == b.actor && !a.marked && b.marked)
}

/// The join of two marker states: the greater write.
pub open spec fn flag_join(a: FlagView, b: FlagView) -> FlagView {
    if flag_lt(a, b) {
        b
    } else {
        a
    }
}

/// `flag_lt` is a strict total order, so the marker join is commutative,
/// idempotent and associative.
pub proof fn lemma_flag_join_lattice(a: FlagView, b: FlagView, c: FlagView)
    ensures
        flag_join(a, b) == flag_join(b, a),
        flag_join(a, a) == a,
        flag_join(flag_join(a, b), c) == flag_join(a, flag_join(b, c)),
        flag_join(a, flag_join(a, b)) == flag_join(a, b),
        flag_join(flag_join(a, b), b) == flag_join(a, b),
{
    if !flag_lt(a, b) && !flag_lt(b, a) {
        assert(a =~= b);
    }
    if !flag_lt(b, c) && !flag_lt(c, b) {
        assert(b =~= c);
    }
    if !flag_lt(a, c) && !flag_lt(c, a) {
        assert(a =~= c);
    }
}

/// The mathematical value of a document replica: its immutable id, the
/// branch actor and logical clock of this replica, and one register per
/// typed field plus the soft-delete marker.
#[verifier::ext_equal]
pub struct DocView {
    pub doc_id: u128,
    pub actor: u64,
    pub clock: u64,
    pub name: RegView,
    pub path: RegView,
    pub description: RegView,
    pub removed: FlagView,
}

impl DocView {
    /// Well-formed replica state: no field was written later than the
    /// replica's clock. Local writes advance the clock first, and merge
    /// joins the clocks, so every constructor and method preserves this.
    pub open spec fn wf(self) -> bool {
        &&& self.name.time <= self.clock
        &&& self.path.time <= self.clock
        &&& self.description.time <= self.clock
        &&& self.removed.time <= self.clock
    }
}

/// One replicated state unit with CRDT merge semantics: a fixed set of
/// typed fields (name, path, description) plus a soft-delete marker,
/// each a last-writer-wins register.
#[derive(Debug, Clone, PartialEq)]
pub struct Document {
    pub doc_id: u128,
    pub actor: u64,
    pub clock: u64,
    pub name: Register,
    pub path: Register,
    pub description: Register,
    pub removed: Flag,
}

impl View for Document {
    type V = DocView;

    open spec fn view(&self) -> DocView {
        DocView {
            doc_id: self.doc_id,
            actor: self.actor,
            clock: self.clock,
            name: self.name@,
            path: self.path@,
            description: self.description@,
            removed: self.removed@,
        }
    }
}

/// A local field mutation, the form an external intent takes inside the
/// document.
#[derive(Debug, Clone)]
pub enum Update {
    Name(Vec<u8>),
    Description(Vec<u8>),
    Path(Vec<u8>),
}

/// An externally issued intent on one document.
#[derive(Debug, Clone)]
pub enum CrdtOperation {
    Create,
    Update(Update),
    Delete,
}

/// The state of a freshly created document replica.
pub open spec fn new_doc_view(doc_id: u128, actor: u64) -> DocView {
    DocView {
        doc_id,
        actor,
        clock: 0,
        name: RegView { time: 0, actor: 0, value: Seq::<u8>::empty() },
        path: RegView { time: 0, actor: 0, value: Seq::<u8>::empty() },
        description: RegView { time: 0, actor: 0, value: Seq::<u8>::empty() },
        removed: FlagView { time: 0, actor: 0, marked: false },
    }
}

/// The state of a fork of `d`: the same content under a new branch actor.
pub open spec fn fork_view(d: DocView, actor: u64) -> DocView {
    DocView { actor, ..d }
}

/// The state of `d` after a local write of `value` to the name field:
/// the clock advances by one and stamps the write.
pub open spec fn set_name(d: DocView, value: Seq<u8>) -> DocView {
    DocView {
        clock: (d.clock + 1) as u64,
        name: RegView { time: (d.clock + 1) as u64, actor: d.actor, value },
        ..d
    }
}

/// The state of `d` after a local write to the path field.
pub open spec fn set_path(d: DocView, value: Seq<u8>) -> DocView {
    DocView {
        clock: (d.clock + 1) as u64,
        path: RegView { time: (d.clock + 1) as u64, actor: d.actor, value },
        ..d
    }
}

/// The state of `d` after a local write to the description field.
pub open spec fn set_description(d: DocView, value: Seq<u8>) -> DocView {
    DocView {
        clock: (d.clock + 1) as u64,
        description: RegView { time: (d.clock + 1) as u64, actor: d.actor, value },
        ..d
    }
}

/// The state of `d` after a local soft-delete mark.
pub open spec fn set_removed(d: DocView) -> DocView {
    DocView {
        clock: (d.clock + 1) as u64,
        removed: FlagView { time: (d.clock + 1) as u64, actor: d.actor, marked: true },
        ..d
    }
}

/// The state of `d` after a local update intent.
pub open spec fn spec_apply_update(d: DocView, u: Update) -> DocView {
    match u {
        Update::Name(v) => set_name(d, v@),
        Update::Description(v) => set_description(d, v@),
        Update::Path(v) => set_path(d, v@),
    }
}

/// The CRDT merge of two branches of one document: field by field the
/// greater write survives, the clocks join to their maximum, and the
/// receiving branch keeps its id and actor.
pub open spec fn doc_join(a: DocView, b: DocView) -> DocView {
    DocView {
        doc_id: a.doc_id,
        actor: a.actor,
        clock: if a.clock < b.clock {
            b.clock
        } else {
            a.clock
        },
        name: reg_join(a.name, b.name),
        path: reg_join(a.path, b.path),
        description: reg_join(a.description, b.description),
        removed: flag_join(a.removed, b.removed),
    }
}

/// Two replica states hold the same observable document: everything but
/// the branch actor — which only names who wrote, never what is read —
/// agrees.
pub open spec fn converged(a: DocView, b: DocView) -> bool {
    &&& a.doc_id == b.doc_id
    &&& a.clock == b.clock
    &&& a.name == b.name
    &&& a.path == b.path
    &&& a.description == b.description
    &&& a.removed == b.removed
}

/// Merge is commutative: for branches `a`, `b` of the same document,
/// merging `b` into `a` and merging `a` into `b` converge to the same
/// observable document.
pub proof fn lemma_merge_commutative(a: DocView, b: DocView)
    requires
        a.doc_id == b.doc_id,
    ensures
        converged(doc_join(a, b), doc_join(b, a)),
{
    lemma_reg_join_commutative(a.name, b.name);
    lemma_reg_join_commutative(a.path, b.path);
    lemma_reg_join_commutative(a.description, b.description);
    lemma_flag_join_lattice(a.removed, b.removed, a.removed);
}

/// Merge is idempotent: merging the same foreign state twice yields the
/// same result as merging it once.
pub proof fn lemma_merge_idempotent(a: DocView, b: DocView)
    ensures
        doc_join(doc_join(a, b), b) == doc_join(a, b),
        doc_join(a, a) == a,
{
    lemma_reg_join_absorbs(a.name, b.name);
    lemma_reg_join_absorbs(a.path, b.path);
    lemma_reg_join_absorbs(a.description, b.description);
    lemma_reg_join_idempotent(a.name);
    lemma_reg_join_idempotent(a.path);
    lemma_reg_join_idempotent(a.description);
    lemma_flag_join_lattice(a.removed, b.removed, a.removed);
    assert(doc_join(a, a) =~= a);
}

/// Merge is associative, so any number of replicas merging in any
/// grouping converge to the same observable document.
pub proof fn lemma_merge_associative(a: DocView, b: DocView, c: DocView)
    ensures
        doc_join(doc_join(a, b), c) == doc_join(a, doc_join(b, c)),
{
    lemma_reg_join_associative(a.name, b.name, c.name);
    lemma_reg_join_associative(a.path, b.path, c.path);
    lemma_reg_join_associative(a.description, b.description, c.description);
    lemma_flag_join_lattice(a.removed, b.removed, c.removed);
    assert(doc_join(doc_join(a, b), c) =~= doc_join(a, doc_join(b, c)));
}

/// No data loss on disjoint writes: if one fork of `base` sets the name
/// and a concurrent fork sets the description, the merged document holds
/// both new values, whichever way the merge runs.
pub proof fn lemma_disjoint_field_writes(base: DocView, fa: u64, fb: u64, x: Seq<u8>, y: Seq<u8>)
    requires
        base.wf(),
        base.clock < u64::MAX,
    ensures
        ({
            let a = set_name(fork_view(base, fa), x);
            let b = set_description(fork_view(base, fb), y);
            &&& doc_join(a, b).name.value == x
            &&& doc_join(a, b).description.value == y
            &&& doc_join(b, a).name.value == x
            &&& doc_join(b, a).description.value == y
        }),
{
}

/// Deterministic conflict resolution: when two branches wrote the same
/// field concurrently, the merged field is the join of the two writes —
/// one of the two written values, the same one on every replica, in
/// either merge order.
pub proof fn lemma_conflict_resolution_deterministic(a: DocView, b: DocView)
    requires
        a.doc_id == b.doc_id,
    ensures
        doc_join(a, b).name == reg_join(a.name, b.name),
        doc_join(a, b).name == doc_join(b, a).name,
        reg_join(a.name, b.name) == a.name || reg_join(a.name, b.name) == b.name,
{
    lemma_reg_join_commutative(a.name, b.name);
}

/// The merge of two well-formed branches is well-formed: every surviving
/// field write is stamped no later than the joined clock.
pub proof fn lemma_join_wf(a: DocView, b: DocView)
    requires
        a.wf(),
        b.wf(),
    ensures
        doc_join(a, b).wf(),
{
}

/// Reconciling a candidate onto a fork of the canonical document and
/// merging the fork back equals merging the candidate directly: the
/// scratch branch adds nothing of its own.
pub proof fn lemma_join_after_fork(a: DocView, c: DocView, actor: u64)
    ensures
        doc_join(a, doc_join(fork_view(a, actor), c)) == doc_join(a, c),
{
    lemma_reg_join_absorbs(a.name, c.name);
    lemma_reg_join_absorbs(a.path, c.path);
    lemma_reg_join_absorbs(a.description, c.description);
    lemma_flag_join_lattice(a.removed, c.removed, a.removed);
    assert(doc_join(a, doc_join(fork_view(a, actor), c)) =~= doc_join(a, c));
}

impl Document {
    /// A freshly created document replica with the given id, owned by
    /// branch `actor`: all fields empty, the clock at zero.
    pub fn new(doc_id: u128, actor: u64) -> (d: Document)
        ensures
            d@ == new_doc_view(doc_id, actor),
            d@.wf(),
    {
        let d = Document {
            doc_id,
            actor,
            clock: 0,
            name: Register::empty(),
            path: Register::empty(),
            description: Register::empty(),
            removed: Flag { time: 0, actor: 0, marked: false },
        };
        assert(d@ =~= new_doc_view(doc_id, actor));
        d
    }

    /// A field-by-field copy of this replica.
    pub fn duplicate(&self) -> (d: Document)
        ensures
            d@ == self@,
    {
        let d = Document {
            doc_id: self.doc_id,
            actor: self.actor,
            clock: self.clock,
            name: self.name.duplicate(),
            path: self.path.duplicate(),
            description: self.description.duplicate(),
            removed: self.removed,
        };
        assert(d@ =~= self@);
        d
    }

    /// Fork this replica into an independent branch sharing its causal
    /// history, under the fresh branch actor `actor`.
    pub fn fork(&self, actor: u64) -> (d: Document)
        ensures
            d@ == fork_view(self@, actor),
            self@.wf() ==> d@.wf(),
    {
        let d = Document {
            doc_id: self.doc_id,
            actor,
            clock: self.clock,
            name: self.name.duplicate(),
            path: self.path.duplicate(),
            description: self.description.duplicate(),
            removed: self.removed,
        };
        assert(d@ =~= fork_view(self@, actor));
        d
    }

    /// Commit a local field mutation: advance the clock and stamp the
    /// written field with it.
    pub fn apply_update(&mut self, u: &Update)
        requires
            old(self)@.clock < u64::MAX,
        ensures
            final(self)@ == spec_apply_update(old(self)@, *u),
            old(self)@.wf() ==> final(self)@.wf(),
    {
        self.clock = self.clock + 1;
        match u {
            Update::Name(v) => {
                self.name = Register::write(self.clock, self.actor, copy_bytes(v));
            },
            Update::Description(v) => {
                self.description = Register::write(self.clock, self.actor, copy_bytes(v));
            },
            Update::Path(v) => {
                self.path = Register::write(self.clock, self.actor, copy_bytes(v));
            },
        }
        assert(self@ =~= spec_apply_update(old(self)@, *u));
    }

    /// Commit a local soft-delete mark: the document stays in the
    /// registry and keeps replicating, but reads as removed.
    pub fn mark_removed(&mut self)
        requires
            old(self)@.clock < u64::MAX,
        ensures
            final(self)@ == set_removed(old(self)@),
            old(self)@.wf() ==> final(self)@.wf(),
    {
        self.clock = self.clock + 1;
        self.removed = Flag { time: self.clock, actor: self.actor, marked: true };
        assert(self@ =~= set_removed(old(self)@));
    }

    /// Re-apply the typed field values of a foreign candidate onto this
    /// branch, write for write: each candidate write that supersedes the
    /// local one in the total order lands as a field mutation under its
    /// own stamp, so a stale snapshot can never overwrite newer
    /// concurrent edits.
    pub fn reconcile(&mut self, other: &Document)
        ensures
            final(self)@ == doc_join(old(self)@, other@),
            old(self)@.wf() && other@.wf() ==> final(self)@.wf(),
    {
        self.name.absorb(&other.name);
        self.path.absorb(&other.path);
        self.description.absorb(&other.description);
        if flag_lt_exec(&self.removed, &other.removed) {
            self.removed = other.removed;
        }
        if self.clock < other.clock {
            self.clock = other.clock;
        }
        assert(self@ =~= doc_join(old(self)@, other@));
    }

    /// Merge another branch of the same document into this one with the
    /// CRDT merge operator: the join of the two branch states.
    pub fn merge(&mut self, other: &Document)
        requires
            old(self)@.doc_id == other@.doc_id,
        ensures
            final(self)@ == doc_join(old(self)@, other@),
            old(self)@.wf() && other@.wf() ==> final(self)@.wf(),
    {
        self.reconcile(other);
    }
}

/// Whether marker write `a` comes strictly before `b` in the total
/// order.
fn flag_lt_exec(a: &Flag, b: &Flag) -> (r: bool)
    ensures
        r == flag_lt(a@, b@),
{
    if a.time < b.time {
        true
    } else if a.time == b.time && a.actor < b.actor {
        true
    } else if a.time == b.time && a.actor == b.actor && !a.marked && b.marked {
        true
    } else {
        false
    }
}

} // verus!
