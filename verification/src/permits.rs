use vstd::prelude::*;

verus! {

/// A bounded pool of merge permits. CRDT merge is CPU-bound, so the
/// number of fork-reconcile-merge sequences in flight at once is capped
/// system-wide, independent of how many distinct documents are touched;
/// saturating the pool is intentional backpressure.
pub struct PermitPool {
    /// How many permits exist in all.
    pub capacity: u64,
    /// How many permits are currently held.
    pub in_flight: u64,
}

impl PermitPool {
    /// The pool's invariant: at least one permit exists, and no more
    /// permits are out than exist. Every operation preserves it, so no
    /// instrumented load ever observes more than `capacity` merge
    /// sequences holding a permit at once.
    pub open spec fn wf(&self) -> bool {
        &&& self.capacity >= 1
        &&& self.in_flight <= self.capacity
    }

    /// Create a pool of `capacity` permits, none of them held.
    pub fn new(capacity: u64) -> (r: PermitPool)
        requires
            capacity >= 1,
        ensures
            r.wf(),
            r.capacity == capacity,
            r.in_flight == 0,
    {
        PermitPool { capacity, in_flight: 0 }
    }

    /// Take one permit if any is free; a permit is granted exactly when
    /// fewer than `capacity` are out.
    pub fn try_acquire(&mut self) -> (granted: bool)
        requires
            old(self).wf(),
        ensures
            final(self).wf(),
            final(self).capacity == old(self).capacity,
            granted == (old(self).in_flight < old(self).capacity),
            granted ==> final(self).in_flight == old(self).in_flight + 1,
            !granted ==> final(self).in_flight == old(self).in_flight,
    {
        if self.in_flight < self.capacity {
            self.in_flight = self.in_flight + 1;
            true
        } else {
            false
        }
    }

    /// Hand one held permit back.
    pub fn release(&mut self)
        requires
            old(self).wf(),
            old(self).in_flight >= 1,
        ensures
            final(self).wf(),
            final(self).capacity == old(self).capacity,
            final(self).in_flight == old(self).in_flight - 1,
    {
        self.in_flight = self.in_flight - 1;
    }
}

/// The concurrency bound: in any pool state reachable through `new`,
/// `try_acquire` and `release` — all of which preserve `wf` — the number
/// of permits out never exceeds the pool's capacity.
pub proof fn lemma_permit_bound(p: PermitPool)
    requires
        p.wf(),
    ensures
        p.in_flight <= p.capacity,
{
}

} // verus!
