//! The two-phase rendezvous: no thread may start its second phase before
//! every thread has finished its first.

use vstd::prelude::*;

verus! {

/// Counts the threads that have finished their first phase.
pub struct PhaseBarrier {
    parties: usize,
    arrived: usize,
}

/// The state of a barrier.
pub struct BarrierView {
    /// The number of threads that meet at the barrier.
    pub parties: nat,
    /// The number of threads that have arrived.
    pub arrived: nat,
}

impl View for PhaseBarrier {
    type V = BarrierView;

    closed spec fn view(&self) -> BarrierView {
        BarrierView { parties: self.parties as nat, arrived: self.arrived as nat }
    }
}

/// Whether a thread that looks at the count of finished first phases sees a
/// violation: it is in its second phase while some first phase is unfinished.
pub open spec fn violated(phase_one_done: nat, thread_count: nat) -> bool {
    phase_one_done < thread_count
}

impl PhaseBarrier {
    /// A barrier for `parties` threads, none of which has arrived.
    pub fn new(parties: usize) -> (barrier: Self)
        ensures
            barrier@.parties == parties,
            barrier@.arrived == 0,
    {
        PhaseBarrier { parties, arrived: 0 }
    }

    /// Records that one more thread has finished its first phase. Returns
    /// whether it was the last one, which opens the barrier.
    pub fn arrive(&mut self) -> (leader: bool)
        requires
            old(self)@.arrived < old(self)@.parties,
        ensures
            final(self)@.parties == old(self)@.parties,
            final(self)@.arrived == old(self)@.arrived + 1,
            leader == (final(self)@.arrived == final(self)@.parties),
    {
        self.arrived = self.arrived + 1;
        self.arrived == self.parties
    }

    /// Whether every thread has arrived, so that the second phase may start.
    pub fn is_open(&self) -> (open: bool)
        ensures
            open == (self@.arrived >= self@.parties),
            open ==> !violated(self@.arrived, self@.parties),
    {
        self.arrived >= self.parties
    }
}

/// The check that every thread makes when it enters its second phase.
pub fn observes_violation(phase_one_done: usize, thread_count: usize) -> (violation: bool)
    ensures
        violation == violated(phase_one_done as nat, thread_count as nat),
{
    phase_one_done < thread_count
}

/// The sequential reference: every thread finishes its first phase, then the
/// second phases start. It never sees a violation.
pub fn sequential_two_phase(thread_count: usize) -> (ok: bool)
    ensures
        ok,
{
    let mut barrier = PhaseBarrier::new(thread_count);
    let mut id: usize = 0;
    while id < thread_count
        invariant
            id <= thread_count,
            barrier@.parties == thread_count,
            barrier@.arrived == id,
        decreases thread_count - id,
    {
        barrier.arrive();
        id += 1;
    }
    let mut ok = barrier.is_open();
    id = 0;
    while id < thread_count
        invariant
            id <= thread_count,
            barrier@.parties == thread_count,
            barrier@.arrived == thread_count,
            ok,
        decreases thread_count - id,
    {
        if observes_violation(thread_count, thread_count) {
            ok = false;
        }
        id += 1;
    }
    ok
}

} // verus!
