use vstd::prelude::*;

use crate::order::{bytes_cmp_lt, bytes_lt, copy_bytes, lemma_bytes_lt_transitive,
    lemma_bytes_lt_trichotomy};

verus! {

/// The mathematical value of a last-writer-wins register: the stored
/// bytes together with the stamp — logical time and writing actor — of
/// the write that produced them.
#[verifier::ext_equal]
pub struct RegView {
    pub time: u64,
    pub actor: u64,
    pub value: Seq<u8>,
}

/// A last-writer-wins register holding one typed field of a document.
#[derive(Debug, Clone, PartialEq)]
pub struct Register {
    pub time: u64,
    pub actor: u64,
    pub value: Vec<u8>,
}

impl View for Register {
    type V = RegView;

    open spec fn view(&self) -> RegView {
        RegView { time: self.time, actor: self.actor, value: self.value@ }
    }
}

/// The deterministic total order on register writes: a later logical
/// time wins; between equal times the larger actor wins; between equal
/// stamps the lexicographically larger value wins. Every replica orders
/// any two writes the same way, so conflicting concurrent writes resolve
/// to one globally-agreed value.
pub open spec fn reg_lt(a: RegView, b: RegView) -> bool {
    ||| a.time < b.time
    ||| (a.time == b.time && a.actor < b.actor)
    ||| (a.time == b.time && a.actor == b.actor && bytes_lt(a.value, b.value))
}

/// The join of two register states: the greater write in the total
/// order. Merging branches takes this join field by field.
pub open spec fn reg_join(a: RegView, b: RegView) -> RegView {
    if reg_lt(a, b) {
        b
    } else {
        a
    }
}

/// `reg_lt` is a strict total order on register states.
pub proof fn lemma_reg_lt_trichotomy(a: RegView, b: RegView)
    ensures
        reg_lt(a, b) || reg_lt(b, a) || a == b,
        reg_lt(a, b) ==> !reg_lt(b, a) && a != b,
        reg_lt(b, a) ==> !reg_lt(a, b) && b != a,
{
    lemma_bytes_lt_trichotomy(a.value, b.value);
    if !reg_lt(a, b) && !reg_lt(b, a) {
        assert(a =~= b);
    }
}

/// `reg_lt` is transitive.
pub proof fn lemma_reg_lt_transitive(a: RegView, b: RegView, c: RegView)
    requires
        reg_lt(a, b),
        reg_lt(b, c),
    ensures
        reg_lt(a, c),
{
    if a.time == b.time && b.time == c.time && a.actor == b.actor && b.actor == c.actor {
        lemma_bytes_lt_transitive(a.value, b.value, c.value);
    }
}

/// The register join does not depend on the order of its arguments.
pub proof fn lemma_reg_join_commutative(a: RegView, b: RegView)
    ensures
        reg_join(a, b) == reg_join(b, a),
{
    lemma_reg_lt_trichotomy(a, b);
}

/// Joining a state with itself changes nothing.
pub proof fn lemma_reg_join_idempotent(a: RegView)
    ensures
        reg_join(a, a) == a,
{
    lemma_reg_lt_trichotomy(a, a);
}

/// The register join is associative.
pub proof fn lemma_reg_join_associative(a: RegView, b: RegView, c: RegView)
    ensures
        reg_join(reg_join(a, b), c) == reg_join(a, reg_join(b, c)),
{
    lemma_reg_lt_trichotomy(a, b);
    lemma_reg_lt_trichotomy(b, c);
    lemma_reg_lt_trichotomy(a, c);
    if reg_lt(a, b) && reg_lt(b, c) {
        lemma_reg_lt_transitive(a, b, c);
    }
    if reg_lt(c, b) && reg_lt(b, a) {
        lemma_reg_lt_transitive(c, b, a);
    }
}

/// Absorbing a write a second time changes nothing more.
pub proof fn lemma_reg_join_absorbs(a: RegView, b: RegView)
    ensures
        reg_join(a, reg_join(a, b)) == reg_join(a, b),
        reg_join(reg_join(a, b), b) == reg_join(a, b),
{
    lemma_reg_lt_trichotomy(a, b);
    lemma_reg_lt_trichotomy(a, a);
    lemma_reg_lt_trichotomy(b, b);
}

impl Register {
    /// A register as first created: empty value, written at time zero by
    /// actor zero.
    pub fn empty() -> (r: Register)
        ensures
            r@ == (RegView { time: 0, actor: 0, value: Seq::<u8>::empty() }),
    {
        let r = Register { time: 0, actor: 0, value: Vec::new() };
        assert(r@.value =~= Seq::<u8>::empty());
        r
    }

    /// Record a write of `value` stamped (`time`, `actor`).
    pub fn write(time: u64, actor: u64, value: Vec<u8>) -> (r: Register)
        ensures
            r@ == (RegView { time, actor, value: value@ }),
    {
        Register { time, actor, value }
    }

    /// A field-by-field copy of this register.
    pub fn duplicate(&self) -> (r: Register)
        ensures
            r@ == self@,
    {
        let r = Register { time: self.time, actor: self.actor, value: copy_bytes(&self.value) };
        assert(r@ =~= self@);
        r
    }

    /// Whether this write comes strictly before `other` in the total
    /// order.
    pub fn before(&self, other: &Register) -> (r: bool)
        ensures
            r == reg_lt(self@, other@),
    {
        if self.time < other.time {
            true
        } else if self.time == other.time && self.actor < other.actor {
            true
        } else if self.time == other.time && self.actor == other.actor {
            bytes_cmp_lt(&self.value, &other.value)
        } else {
            false
        }
    }

    /// Absorb a concurrent write: keep whichever of the two writes is
    /// greater in the total order.
    pub fn absorb(&mut self, other: &Register)
        ensures
            final(self)@ == reg_join(old(self)@, other@),
    {
        let takes = self.before(other);
        if takes {
            self.time = other.time;
            self.actor = other.actor;
            self.value = copy_bytes(&other.value);
            assert(self@ =~= other@);
        }
    }
}

} // verus!
