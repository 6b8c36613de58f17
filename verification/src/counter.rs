//! The shared-counter workload: how often a thread takes the lock while it
//! counts, and the totals that a correct run ends with.

use vstd::arithmetic::div_mod::{lemma_fundamental_div_mod, lemma_fundamental_div_mod_converse};
use vstd::prelude::*;

verus! {

/// Increments that each thread performs.
pub const ITERATIONS_PER_THREAD: usize = 1_000_000;

/// Increments that a thread batches before it takes the lock.
pub const BLOCK_SIZE: usize = 1_000;

/// How many increments one acquisition of the lock covers.
#[derive(Clone, Copy, Debug, PartialEq, Eq)]
pub enum Granularity {
    /// The lock is taken for every increment.
    EveryIncrement,
    /// Increments are batched locally; the lock is taken once per full batch
    /// of this size, and once more for what is left at the end.
    Blocks(usize),
    /// Everything is counted locally; the lock is taken once, at the end.
    Once,
}

/// The increments that a thread has counted but not yet added to the shared
/// counter.
pub struct LocalBatch {
    granularity: Granularity,
    pending: usize,
}

/// The state of a batch: its granularity and the number of pending
/// increments.
pub struct BatchView {
    pub granularity: Granularity,
    pub pending: nat,
}

/// Whether the lock is taken now that `pending` increments are batched.
pub open spec fn flush_due(granularity: Granularity, pending: nat) -> bool {
    match granularity {
        Granularity::EveryIncrement => true,
        Granularity::Blocks(size) => pending == size,
        Granularity::Once => false,
    }
}

/// Whether the lock is taken at the end, with `pending` increments left.
pub open spec fn final_flush_due(granularity: Granularity, pending: nat) -> bool {
    match granularity {
        Granularity::Once => true,
        _ => pending > 0,
    }
}

/// How often a thread takes the lock for `iterations` increments.
pub open spec fn acquisitions(granularity: Granularity, iterations: nat) -> nat {
    match granularity {
        Granularity::EveryIncrement => iterations,
        Granularity::Blocks(size) => if size == 0 {
            if iterations > 0 {
                1nat
            } else {
                0nat
            }
        } else {
            iterations / (size as nat) + if iterations % (size as nat) == 0 {
                0nat
            } else {
                1nat
            }
        },
        Granularity::Once => 1,
    }
}

impl View for LocalBatch {
    type V = BatchView;

    closed spec fn view(&self) -> BatchView {
        BatchView { granularity: self.granularity, pending: self.pending as nat }
    }
}

impl LocalBatch {
    /// An empty batch.
    pub fn new(granularity: Granularity) -> (batch: Self)
        ensures
            batch@.granularity == granularity,
            batch@.pending == 0,
    {
        LocalBatch { granularity, pending: 0 }
    }

    /// Counts one increment. Returns the amount to add to the shared counter
    /// under the lock, if the lock is due now.
    pub fn record(&mut self) -> (flushed: Option<usize>)
        requires
            old(self)@.pending < usize::MAX,
        ensures
            final(self)@.granularity == old(self)@.granularity,
            flush_due(old(self)@.granularity, old(self)@.pending + 1) ==> flushed == Some(
                (old(self)@.pending + 1) as usize,
            ) && final(self)@.pending == 0,
            !flush_due(old(self)@.granularity, old(self)@.pending + 1) ==> flushed.is_none()
                && final(self)@.pending == old(self)@.pending + 1,
    {
        let batched: usize = self.pending + 1;
        let due = match self.granularity {
            Granularity::EveryIncrement => true,
            Granularity::Blocks(size) => batched == size,
            Granularity::Once => false,
        };
        if due {
            self.pending = 0;
            Some(batched)
        } else {
            self.pending = batched;
            None
        }
    }

    /// Ends the counting. Returns the amount to add to the shared counter
    /// under the lock, if the lock is taken once more.
    pub fn finish(&mut self) -> (flushed: Option<usize>)
        ensures
            final(self)@.granularity == old(self)@.granularity,
            final(self)@.pending == 0,
            final_flush_due(old(self)@.granularity, old(self)@.pending) ==> flushed == Some(
                old(self)@.pending as usize,
            ),
            !final_flush_due(old(self)@.granularity, old(self)@.pending) ==> flushed.is_none(),
    {
        let left: usize = self.pending;
        let due = match self.granularity {
            Granularity::Once => true,
            _ => left > 0,
        };
        self.pending = 0;
        if due {
            Some(left)
        } else {
            None
        }
    }
}

/// One more increment either fills the batch or leaves it one fuller.
proof fn lemma_next_increment(count: nat, size: nat)
    requires
        size > 0,
    ensures
        count % size + 1 == size ==> (count + 1) % size == 0 && (count + 1) / size == count / size
            + 1,
        count % size + 1 != size ==> (count + 1) % size == count % size + 1 && (count + 1) / size
            == count / size,
{
    let q = (count / size) as int;
    let r = (count % size) as int;
    lemma_fundamental_div_mod(count as int, size as int);
    assert(0 <= r < size) by (nonlinear_arith)
        requires
            size > 0,
            r == count % size,
    ;
    if r + 1 == size {
        assert(size * (q + 1) == size * q + size) by (nonlinear_arith);
        lemma_fundamental_div_mod_converse(count as int + 1, size as int, q + 1, 0);
    } else {
        lemma_fundamental_div_mod_converse(count as int + 1, size as int, q, r + 1);
    }
}

/// What one thread adds to the shared counter, and how often it takes the
/// lock for it. Whatever the granularity, no increment is lost.
pub fn thread_contribution(granularity: Granularity, iterations: usize) -> (outcome: (
    usize,
    usize,
))
    ensures
        outcome.0 == iterations,
        outcome.1 == acquisitions(granularity, iterations as nat),
{
    let mut batch = LocalBatch::new(granularity);
    let mut added: usize = 0;
    let mut locks: usize = 0;
    let mut done: usize = 0;
    proof {
        if let Granularity::Blocks(size) = granularity {
            if size > 0 {
                lemma_fundamental_div_mod_converse(0, size as int, 0, 0);
            }
        }
    }
    while done < iterations
        invariant
            done <= iterations,
            batch@.granularity == granularity,
            added + batch@.pending == done,
            locks <= done,
            match granularity {
                Granularity::EveryIncrement => batch@.pending == 0 && locks == done,
                Granularity::Blocks(size) => if size == 0 {
                    locks == 0 && batch@.pending == done
                } else {
                    batch@.pending == (done as nat) % (size as nat) && locks == (done as nat) / (
                    size as nat)
                },
                Granularity::Once => locks == 0,
            },
        decreases iterations - done,
    {
        proof {
            if let Granularity::Blocks(size) = granularity {
                if size > 0 {
                    lemma_next_increment(done as nat, size as nat);
                }
            }
        }
        match batch.record() {
            Some(amount) => {
                added = added + amount;
                locks = locks + 1;
            },
            None => {},
        }
        done += 1;
    }
    proof {
        if let Granularity::Blocks(size) = granularity {
            if size > 0 {
                lemma_fundamental_div_mod(done as int, size as int);
                assert(done % size > 0 ==> done / size < done) by (nonlinear_arith)
                    requires
                        size > 0,
                        done >= 0,
                        done == size * (done / size) + done % size,
                ;
            }
        }
    }
    match batch.finish() {
        Some(amount) => {
            added = added + amount;
            locks = locks + 1;
        },
        None => {},
    }
    (added, locks)
}

/// The value that the counter holds after a correct run, or `None` where it
/// does not fit the machine's word.
pub fn expected_total(thread_count: usize, iterations: usize) -> (expected: Option<usize>)
    ensures
        match expected {
            Some(total) => total == thread_count * iterations,
            None => thread_count * iterations > usize::MAX,
        },
{
    thread_count.checked_mul(iterations)
}

/// How many increments a run lost: what is missing from the expected value,
/// and zero where nothing is.
pub fn lost_updates(expected: usize, observed: usize) -> (lost: usize)
    ensures
        lost == if observed >= expected {
            0
        } else {
            expected - observed
        },
{
    expected.saturating_sub(observed)
}

/// The sequential reference: counts every increment of every worker, one by
/// one.
pub fn sequential_counter(thread_count: usize, iterations: usize) -> (counter: usize)
    requires
        thread_count * iterations <= usize::MAX,
    ensures
        counter == thread_count * iterations,
{
    let mut counter: usize = 0;
    let mut worker: usize = 0;
    assert(0 * iterations == 0) by (nonlinear_arith);
    while worker < thread_count
        invariant
            worker <= thread_count,
            thread_count * iterations <= usize::MAX,
            counter == worker * iterations,
        decreases thread_count - worker,
    {
        proof {
            assert((worker + 1) * iterations == worker * iterations + iterations)
                by (nonlinear_arith);
            assert((worker + 1) * iterations <= thread_count * iterations) by (nonlinear_arith)
                requires
                    worker + 1 <= thread_count,
            ;
        }
        let mut step: usize = 0;
        while step < iterations
            invariant
                step <= iterations,
                counter == worker * iterations + step,
                worker * iterations + iterations <= usize::MAX,
            decreases iterations - step,
        {
            counter += 1;
            step += 1;
        }
        worker += 1;
    }
    counter
}

/// The counter after every thread has added its increments under the lock,
/// with the given granularity: the same as the sequential count.
pub fn locked_counter(granularity: Granularity, thread_count: usize, iterations: usize) -> (counter:
    usize)
    requires
        thread_count * iterations <= usize::MAX,
    ensures
        counter == thread_count * iterations,
{
    let mut counter: usize = 0;
    let mut thread: usize = 0;
    assert(0 * iterations == 0) by (nonlinear_arith);
    while thread < thread_count
        invariant
            thread <= thread_count,
            thread_count * iterations <= usize::MAX,
            counter == thread * iterations,
        decreases thread_count - thread,
    {
        proof {
            assert((thread + 1) * iterations == thread * iterations + iterations)
                by (nonlinear_arith);
            assert((thread + 1) * iterations <= thread_count * iterations) by (nonlinear_arith)
                requires
                    thread + 1 <= thread_count,
            ;
        }
        let contribution = thread_contribution(granularity, iterations);
        counter = counter + contribution.0;
        thread += 1;
    }
    counter
}

} // verus!
