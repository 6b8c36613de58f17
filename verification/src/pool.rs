//! What a worker of the pool does with what it took from the job queue.

use crate::producer::SENTINEL;
use crate::queue::Received;
use vstd::prelude::*;

verus! {

/// An entry of the job queue: work, or the order to stop.
#[derive(Debug, PartialEq, Eq)]
pub enum Message<J> {
    /// A unit of work.
    Job(J),
    /// The termination signal. Exactly one is sent to each worker.
    Stop,
}

/// The next move of a worker.
#[derive(Debug, PartialEq, Eq)]
pub enum WorkerAction<J> {
    /// Execute the job and publish its result, then receive again.
    Process(J),
    /// Nothing is pending and the queue is open: wait and receive again.
    Wait,
    /// Stop for good.
    Halt,
}

/// How a worker ended.
#[derive(Clone, Copy, Debug, PartialEq, Eq)]
pub enum WorkerExit {
    /// The worker stopped as the protocol has it.
    Stopped,
    /// The worker failed while it executed a job. Its result is missing.
    Failed,
}

/// Why joining the pool did not succeed.
#[derive(Clone, Copy, Debug, PartialEq, Eq)]
pub enum PoolFailure {
    /// The worker with this index failed; it is the first that did.
    WorkerFailed(usize),
}

/// What joining a pool reports whose workers ended as `exits`.
pub open spec fn join_outcome(exits: Seq<WorkerExit>) -> Result<(), PoolFailure> {
    if forall|w: int| 0 <= w < exits.len() ==> exits[w] == WorkerExit::Stopped {
        Ok(())
    } else {
        Err(PoolFailure::WorkerFailed(first_failed(exits) as usize))
    }
}

/// The index of the first worker that failed; the number of workers where
/// none did.
pub open spec fn first_failed(exits: Seq<WorkerExit>) -> nat
    decreases exits.len(),
{
    if exits.len() == 0 || exits[0] == WorkerExit::Failed {
        0
    } else {
        1 + first_failed(exits.drop_first())
    }
}

/// The move that `received` calls for.
pub open spec fn action_for<J>(received: Received<Message<J>>) -> WorkerAction<J> {
    match received {
        Received::Item(Message::Job(job)) => WorkerAction::Process(job),
        Received::Item(Message::Stop) => WorkerAction::Halt,
        Received::Empty => WorkerAction::Wait,
        Received::Drained => WorkerAction::Halt,
    }
}

/// Decides a worker's next move. A worker halts only on a termination signal
/// or on a closed and drained queue, never because the queue was empty for a
/// moment.
pub fn worker_action<J>(received: Received<Message<J>>) -> (action: WorkerAction<J>)
    ensures
        action == action_for(received),
{
    match received {
        Received::Item(Message::Job(job)) => WorkerAction::Process(job),
        Received::Item(Message::Stop) => WorkerAction::Halt,
        Received::Empty => WorkerAction::Wait,
        Received::Drained => WorkerAction::Halt,
    }
}

/// Joins the pool: a worker's failure is not swallowed but reported, with the
/// index of the first worker that failed.
pub fn join_report(exits: &Vec<WorkerExit>) -> (report: Result<(), PoolFailure>)
    ensures
        report == join_outcome(exits@),
{
    let mut w: usize = 0;
    assert(exits@.skip(0) =~= exits@);
    while w < exits.len()
        invariant
            w <= exits@.len(),
            forall|v: int| 0 <= v < w ==> exits@[v] == WorkerExit::Stopped,
            first_failed(exits@) == w + first_failed(exits@.skip(w as int)),
        decreases exits@.len() - w,
    {
        proof {
            assert(exits@.skip(w as int)[0] == exits@[w as int]);
            assert(exits@.skip(w as int).drop_first() =~= exits@.skip(w as int + 1));
        }
        match exits[w] {
            WorkerExit::Failed => {
                return Err(PoolFailure::WorkerFailed(w));
            },
            WorkerExit::Stopped => {},
        }
        w += 1;
    }
    Ok(())
}

/// Reads a raw queue entry of the tagged-item scenario: the sentinel means
/// stop, every other value is an item.
pub fn classify_item(raw: i32) -> (message: Message<i32>)
    ensures
        message == if raw == SENTINEL {
            Message::<i32>::Stop
        } else {
            Message::Job(raw)
        },
{
    if raw == SENTINEL {
        Message::Stop
    } else {
        Message::Job(raw)
    }
}

/// The termination signals that shut a pool of `workers` down: one per worker.
pub fn shutdown_signals<J>(workers: usize) -> (signals: Vec<Message<J>>)
    ensures
        signals@.len() == workers,
        forall|i: int| 0 <= i < workers ==> signals@[i] == Message::<J>::Stop,
{
    let mut signals: Vec<Message<J>> = Vec::new();
    let mut sent: usize = 0;
    while sent < workers
        invariant
            sent <= workers,
            signals@.len() == sent,
            forall|i: int| 0 <= i < sent ==> signals@[i] == Message::<J>::Stop,
        decreases workers - sent,
    {
        signals.push(Message::Stop);
        sent += 1;
    }
    signals
}

} // verus!
