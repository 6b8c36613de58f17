//! The shutdown protocol of the pipeline, as a state machine.
//!
//! Producers enqueue their shares of the jobs onto the bounded queue; once all
//! of them are done, the coordinator shuts the pool down: it enqueues one
//! termination signal per worker, or closes the queue, or both. Each worker
//! takes entries off the queue, executes the jobs and delivers their results,
//! and stops at the first signal it takes or when it finds the queue closed
//! and drained. Which actor moves next is not up to the protocol: a schedule
//! is any sequence of events, and an event whose actor cannot move leaves the
//! state as it is.
//!
//! The state keeps an invariant under every event. From the invariant follow
//! the guarantees of a finished run, whatever the schedule was: every job was
//! executed exactly once, every worker was told to stop exactly once, and the
//! aggregated total is the sum of all partial results.

use crate::aggregate::seq_sum;
use crate::counting::occurrences;
use crate::pool::Message;
use crate::producer::share_start;
use vstd::prelude::*;

verus! {

/// What a worker is doing.
#[derive(Clone, Copy, Debug, PartialEq, Eq)]
pub enum WorkerState {
    /// Ready to take the next queue entry.
    Idle,
    /// Executing the job with this index; its result is not delivered yet.
    Busy(usize),
    /// Stopped after taking a termination signal. It never receives again.
    Stopped,
    /// Stopped after finding the queue closed and drained. It never receives
    /// again.
    Released,
}

/// One move of one actor.
#[derive(Clone, Copy, Debug, PartialEq, Eq)]
pub enum Event {
    /// The producer with this index enqueues its next job.
    Produce(usize),
    /// The coordinator enqueues one termination signal.
    Signal,
    /// The coordinator closes the queue.
    Close,
    /// The worker with this index takes the oldest queue entry.
    Receive(usize),
    /// The worker with this index delivers the result of the job it holds.
    Deliver(usize),
}

/// What became of an event.
#[derive(Clone, Copy, Debug, PartialEq, Eq)]
pub enum Progress {
    /// The actor moved.
    Advanced,
    /// The actor has to wait: the queue is full or empty, or the coordinator
    /// waits for the producers.
    Blocked,
    /// The actor does not exist or has nothing left to do.
    Ignored,
}

/// The state of the pipeline.
#[verifier::ext_equal]
pub struct PipelineView {
    /// The partial result of each job, by job index.
    pub values: Seq<i64>,
    /// The capacity of the job queue.
    pub capacity: nat,
    /// For each producer, the index of the job it enqueues next.
    pub cursors: Seq<usize>,
    /// The queue entries, oldest first.
    pub pending: Seq<Message<usize>>,
    /// Whether the queue was closed.
    pub closed: bool,
    /// How many termination signals the coordinator has enqueued.
    pub signals_sent: nat,
    /// What each worker is doing.
    pub workers: Seq<WorkerState>,
    /// For each worker, how often it was told to stop: by a termination
    /// signal it took, or by the queue being closed and drained.
    pub stops_observed: Seq<usize>,
    /// The indices of the executed jobs, in the order of delivery.
    pub processed: Seq<usize>,
    /// The fold of the results delivered so far.
    pub total: int,
}

/// The sum of the partial results of the jobs `ids`, repetitions included.
pub open spec fn sum_over(ids: Seq<usize>, values: Seq<i64>) -> int
    decreases ids.len(),
{
    if ids.len() == 0 {
        0
    } else {
        sum_over(ids.drop_last(), values) + values[ids.last() as int]
    }
}

/// The sum of per-worker counts.
pub open spec fn count_sum(counts: Seq<usize>) -> nat
    decreases counts.len(),
{
    if counts.len() == 0 {
        0
    } else {
        count_sum(counts.drop_last()) + counts.last() as nat
    }
}

/// Whether a worker in this state has stopped for good.
pub open spec fn ended(state: WorkerState) -> bool {
    state == WorkerState::Stopped || state == WorkerState::Released
}

/// How many workers have not stopped yet.
pub open spec fn active_count(workers: Seq<WorkerState>) -> nat
    decreases workers.len(),
{
    if workers.len() == 0 {
        0
    } else {
        active_count(workers.drop_last()) + if ended(workers.last()) {
            0nat
        } else {
            1nat
        }
    }
}

/// How many workers hold a job whose result is not delivered yet.
pub open spec fn busy_count(workers: Seq<WorkerState>) -> nat
    decreases workers.len(),
{
    if workers.len() == 0 {
        0
    } else {
        busy_count(workers.drop_last()) + if workers.last() is Busy {
            1nat
        } else {
            0nat
        }
    }
}

impl PipelineView {
    /// The number of jobs.
    pub open spec fn jobs(self) -> nat {
        self.values.len()
    }

    /// The number of producers.
    pub open spec fn producers(self) -> nat {
        self.cursors.len()
    }

    /// The index of the first job of producer `p`.
    pub open spec fn start(self, p: int) -> nat {
        share_start(self.jobs(), self.producers(), p as nat)
    }

    /// The index after the last job of producer `p`.
    pub open spec fn end(self, p: int) -> nat {
        share_start(self.jobs(), self.producers(), (p + 1) as nat)
    }

    /// Whether every producer has enqueued its whole share.
    pub open spec fn producers_done(self) -> bool {
        forall|p: int| 0 <= p < self.producers() ==> #[trigger] self.cursors[p] == self.end(p)
    }

    /// Whether job `j` belongs to producer `p` and was enqueued already.
    pub open spec fn sent_by(self, p: int, j: usize) -> bool {
        0 <= p < self.producers() && self.start(p) <= j < self.cursors[p]
    }

    /// Whether job `j` was enqueued already.
    pub open spec fn sent(self, j: usize) -> bool {
        exists|p: int| #[trigger] self.sent_by(p, j)
    }

    /// How many copies of job `j` exist: on the queue, in a worker's hands, or
    /// among the executed jobs.
    pub open spec fn copies(self, j: usize) -> nat {
        occurrences(self.pending, Message::Job(j)) + occurrences(
            self.workers,
            WorkerState::Busy(j),
        ) + occurrences(self.processed, j)
    }

    /// How many jobs the first `upto` producers have enqueued.
    pub open spec fn produced_upto(self, upto: nat) -> int
        decreases upto,
    {
        if upto == 0 {
            0
        } else {
            self.produced_upto((upto - 1) as nat) + self.cursors[upto - 1] - self.start(upto - 1)
        }
    }

    /// How many jobs were enqueued.
    pub open spec fn produced(self) -> int {
        self.produced_upto(self.producers())
    }

    /// How often the workers were told to stop, all together.
    pub open spec fn sentinels(self) -> nat {
        count_sum(self.stops_observed)
    }

    /// How many workers have stopped at a termination signal.
    pub open spec fn stopped_workers(self) -> nat {
        occurrences(self.workers, WorkerState::Stopped)
    }

    /// How many workers have stopped at the closed and drained queue.
    pub open spec fn released_workers(self) -> nat {
        occurrences(self.workers, WorkerState::Released)
    }

    /// How many termination signals are on the queue.
    pub open spec fn pending_signals(self) -> nat {
        occurrences(self.pending, Message::<usize>::Stop)
    }

    /// Whether the run is over: every worker has stopped.
    pub open spec fn finished(self) -> bool {
        forall|w: int| 0 <= w < self.workers.len() ==> ended(#[trigger] self.workers[w])
    }

    /// The state before anything has moved.
    pub open spec fn initial(values: Seq<i64>, producers: nat, workers: nat, capacity: nat) -> Self {
        PipelineView {
            values,
            capacity,
            cursors: Seq::new(
                producers,
                |p: int| share_start(values.len(), producers, p as nat) as usize,
            ),
            pending: Seq::empty(),
            closed: false,
            signals_sent: 0,
            workers: Seq::new(workers, |w: int| WorkerState::Idle),
            stops_observed: Seq::new(workers, |w: int| 0usize),
            processed: Seq::empty(),
            total: 0,
        }
    }

    /// Producer `p` has a job left and the queue is open and has room for it.
    pub open spec fn can_produce(self, p: int) -> bool {
        &&& 0 <= p < self.producers()
        &&& self.cursors[p] < self.end(p)
        &&& !self.closed
        &&& self.pending.len() < self.capacity
    }

    pub open spec fn after_produce(self, p: int) -> Self {
        PipelineView {
            pending: self.pending.push(Message::Job(self.cursors[p])),
            cursors: self.cursors.update(p, (self.cursors[p] + 1) as usize),
            ..self
        }
    }

    /// All producers are done, a worker is still without its signal, and the
    /// queue is open and has room for one.
    pub open spec fn can_signal(self) -> bool {
        &&& self.producers_done()
        &&& self.signals_sent < self.workers.len()
        &&& !self.closed
        &&& self.pending.len() < self.capacity
    }

    /// All producers are done and the queue is still open.
    pub open spec fn can_close(self) -> bool {
        &&& self.producers_done()
        &&& !self.closed
    }

    pub open spec fn after_close(self) -> Self {
        PipelineView { closed: true, ..self }
    }

    pub open spec fn after_signal(self) -> Self {
        PipelineView {
            pending: self.pending.push(Message::Stop),
            signals_sent: self.signals_sent + 1,
            ..self
        }
    }

    /// Worker `w` is idle, and the queue holds an entry or is closed.
    pub open spec fn can_receive(self, w: int) -> bool {
        &&& 0 <= w < self.workers.len()
        &&& self.workers[w] == WorkerState::Idle
        &&& (self.pending.len() > 0 || self.closed)
    }

    pub open spec fn after_receive(self, w: int) -> Self {
        if self.pending.len() == 0 {
            PipelineView {
                workers: self.workers.update(w, WorkerState::Released),
                stops_observed: self.stops_observed.update(
                    w,
                    (self.stops_observed[w] + 1) as usize,
                ),
                ..self
            }
        } else {
            match self.pending[0] {
                Message::Job(j) => PipelineView {
                    pending: self.pending.drop_first(),
                    workers: self.workers.update(w, WorkerState::Busy(j)),
                    ..self
                },
                Message::Stop => PipelineView {
                    pending: self.pending.drop_first(),
                    workers: self.workers.update(w, WorkerState::Stopped),
                    stops_observed: self.stops_observed.update(
                        w,
                        (self.stops_observed[w] + 1) as usize,
                    ),
                    ..self
                },
            }
        }
    }

    /// Worker `w` holds a job whose result it has not delivered.
    pub open spec fn can_deliver(self, w: int) -> bool {
        &&& 0 <= w < self.workers.len()
        &&& self.workers[w] is Busy
    }

    pub open spec fn after_deliver(self, w: int) -> Self {
        let j = self.workers[w]->Busy_0;
        PipelineView {
            workers: self.workers.update(w, WorkerState::Idle),
            processed: self.processed.push(j),
            total: self.total + self.values[j as int],
            ..self
        }
    }

    /// Whether the actor of `event` can move.
    pub open spec fn enabled(self, event: Event) -> bool {
        match event {
            Event::Produce(p) => self.can_produce(p as int),
            Event::Signal => self.can_signal(),
            Event::Close => self.can_close(),
            Event::Receive(w) => self.can_receive(w as int),
            Event::Deliver(w) => self.can_deliver(w as int),
        }
    }

    /// The state after `event`. An event that is not enabled changes nothing.
    pub open spec fn next(self, event: Event) -> Self {
        if !self.enabled(event) {
            self
        } else {
            match event {
                Event::Produce(p) => self.after_produce(p as int),
                Event::Signal => self.after_signal(),
                Event::Close => self.after_close(),
                Event::Receive(w) => self.after_receive(w as int),
                Event::Deliver(w) => self.after_deliver(w as int),
            }
        }
    }

    /// What becomes of `event` in this state.
    pub open spec fn progress(self, event: Event) -> Progress {
        if self.enabled(event) {
            Progress::Advanced
        } else {
            match event {
                Event::Produce(p) => if p < self.producers() && self.cursors[p as int] < self.end(
                    p as int,
                ) {
                    Progress::Blocked
                } else {
                    Progress::Ignored
                },
                Event::Signal => if self.signals_sent < self.workers.len() && !self.closed {
                    Progress::Blocked
                } else {
                    Progress::Ignored
                },
                Event::Close => if !self.closed {
                    Progress::Blocked
                } else {
                    Progress::Ignored
                },
                Event::Receive(w) => if w < self.workers.len() && self.workers[w as int]
                    == WorkerState::Idle {
                    Progress::Blocked
                } else {
                    Progress::Ignored
                },
                Event::Deliver(w) => Progress::Ignored,
            }
        }
    }

    /// The state after the events of `schedule`, in order.
    pub open spec fn run(self, schedule: Seq<Event>) -> Self
        decreases schedule.len(),
    {
        if schedule.len() == 0 {
            self
        } else {
            self.run(schedule.drop_last()).next(schedule.last())
        }
    }

    /// How many of the events of `schedule` move an actor.
    pub open spec fn moves(self, schedule: Seq<Event>) -> nat
        decreases schedule.len(),
    {
        if schedule.len() == 0 {
            0
        } else {
            self.moves(schedule.drop_last()) + if self.run(schedule.drop_last()).enabled(
                schedule.last(),
            ) {
                1nat
            } else {
                0nat
            }
        }
    }

    /// A bound on the number of moves that are left: three for a job that is
    /// not enqueued yet (enqueue, take, deliver), two for a job on the queue,
    /// one for a job in a worker's hands; two for a termination signal that
    /// is not sent yet, one for a signal on the queue; one for every worker
    /// that has not stopped, and one for closing the queue.
    pub open spec fn remaining(self) -> int {
        3 * (self.jobs() - self.produced()) + 2 * self.pending.len() - self.pending_signals()
            + busy_count(self.workers) + 2 * (self.workers.len() - self.signals_sent)
            + active_count(self.workers) + if self.closed {
            0int
        } else {
            1int
        }
    }

    /// The sizes fit together and every producer is inside its share.
    pub open spec fn well_shaped(self) -> bool {
        &&& self.producers() >= 1
        &&& self.jobs() <= usize::MAX
        &&& self.producers() <= usize::MAX
        &&& self.workers.len() <= usize::MAX
        &&& self.stops_observed.len() == self.workers.len()
        &&& forall|p: int|
            0 <= p < self.producers() ==> self.start(p) <= #[trigger] self.cursors[p] <= self.end(
                p,
            )
        &&& forall|i: int|
            0 <= i < self.pending.len() ==> (#[trigger] self.pending[i] matches Message::Job(j)
                ==> j < self.jobs())
        &&& forall|w: int|
            0 <= w < self.workers.len() ==> (#[trigger] self.workers[w] matches WorkerState::Busy(
                j,
            ) ==> j < self.jobs())
        &&& forall|k: int|
            0 <= k < self.processed.len() ==> #[trigger] self.processed[k] < self.jobs()
    }

    /// The queue never holds more than its capacity.
    pub open spec fn within_capacity(self) -> bool {
        self.pending.len() <= self.capacity
    }

    /// The shutdown never overtakes work: no job stands behind a termination
    /// signal on the queue; signals are sent and the queue is closed only when
    /// all producers are done; once a worker has stopped at a signal the queue
    /// holds no job, and once a worker has stopped at the closed queue the
    /// queue holds nothing.
    pub open spec fn signals_follow_jobs(self) -> bool {
        &&& forall|i: int, k: int|
            0 <= i <= k < self.pending.len() && self.pending[i] == Message::<usize>::Stop
                ==> self.pending[k] == Message::<usize>::Stop
        &&& self.signals_sent > 0 ==> self.producers_done()
        &&& self.closed ==> self.producers_done()
        &&& self.stopped_workers() > 0 ==> forall|i: int|
            0 <= i < self.pending.len() ==> self.pending[i] == Message::<usize>::Stop
        &&& self.released_workers() > 0 ==> self.closed && self.pending.len() == 0
    }

    /// Every signal sent is on the queue or has stopped a worker, no more
    /// signals were sent than there are workers, and a worker was told to
    /// stop once if it has stopped and never if it has not.
    pub open spec fn signals_accounted(self) -> bool {
        &&& self.signals_sent <= self.workers.len()
        &&& self.signals_sent == self.pending_signals() + self.stopped_workers()
        &&& forall|w: int|
            0 <= w < self.workers.len() ==> #[trigger] self.stops_observed[w] == if ended(
                self.workers[w],
            ) {
                1usize
            } else {
                0usize
            }
    }

    /// Every job that was enqueued exists exactly once, and no other job
    /// exists at all.
    pub open spec fn jobs_accounted(self) -> bool {
        forall|j: usize| #[trigger]
            self.copies(j) == if self.sent(j) {
                1nat
            } else {
                0nat
            }
    }

    /// The total is the fold of the results of the executed jobs.
    pub open spec fn total_matches(self) -> bool {
        self.total == sum_over(self.processed, self.values)
    }

    /// The invariant of the protocol.
    pub open spec fn inv(self) -> bool {
        &&& self.well_shaped()
        &&& self.within_capacity()
        &&& self.signals_follow_jobs()
        &&& self.signals_accounted()
        &&& self.jobs_accounted()
        &&& self.total_matches()
    }
}

} // verus!
