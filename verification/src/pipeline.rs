//! The pipeline, run one event at a time.
//!
//! `Pipeline` is the executable form of the protocol's state machine: it
//! holds the bounded queue, the producers' cursors, the workers and the
//! results, and `step` performs the move of one actor. A caller that owns the
//! schedule (a simulation, a test, a single-threaded driver) can so run the
//! whole pipeline under any interleaving it likes.

use crate::aggregate::seq_sum;
use crate::pool::Message;
use crate::producer::share_range;
use crate::protocol::{ended, Event, PipelineView, Progress, WorkerState};
use crate::protocol_laws::{
    lemma_finished_counts, lemma_finished_run, lemma_initial_inv, lemma_move_uses_up_one,
    lemma_next_keeps_inv, lemma_produced_bounds, lemma_remaining_nonnegative, lemma_run_concat,
    lemma_some_actor_can_move,
};
use crate::queue::{BoundedQueue, Received};
use vstd::prelude::*;

verus! {

/// The counters of one run and what they say about it.
#[derive(Clone, Copy, Debug, PartialEq, Eq, Default)]
pub struct ProducerConsumerResult {
    /// Items that the producers enqueued.
    pub produced: usize,
    /// Items that the consumers took and processed.
    pub consumed: usize,
    /// How often a consumer was told to stop: by a termination signal that it
    /// took, or by the queue being closed and drained.
    pub sentinels: usize,
    /// Whether the counters disagree with a complete run.
    pub deadlock_detected: bool,
}

impl ProducerConsumerResult {
    /// Puts the counters of a run together. A run is flagged unless every
    /// item was produced and consumed and every consumer was told to stop
    /// once.
    pub fn from_counts(
        produced: usize,
        consumed: usize,
        sentinels: usize,
        total_items: usize,
        consumers: usize,
    ) -> (result: Self)
        ensures
            result.produced == produced,
            result.consumed == consumed,
            result.sentinels == sentinels,
            result.deadlock_detected == (produced != total_items || consumed != total_items
                || sentinels != consumers),
    {
        let deadlock_detected = produced != total_items || consumed != total_items || sentinels
            != consumers;
        ProducerConsumerResult { produced, consumed, sentinels, deadlock_detected }
    }
}

/// A pipeline of producers, a bounded queue and a pool of workers.
pub struct Pipeline {
    values: Vec<i64>,
    cursors: Vec<usize>,
    queue: BoundedQueue<Message<usize>>,
    signals_sent: usize,
    workers: Vec<WorkerState>,
    stops_observed: Vec<usize>,
    processed: Vec<usize>,
    total: i128,
}

impl View for Pipeline {
    type V = PipelineView;

    closed spec fn view(&self) -> PipelineView {
        PipelineView {
            values: self.values@,
            capacity: self.queue.spec_capacity(),
            cursors: self.cursors@,
            pending: self.queue@,
            closed: self.queue.spec_closed(),
            signals_sent: self.signals_sent as nat,
            workers: self.workers@,
            stops_observed: self.stops_observed@,
            processed: self.processed@,
            total: self.total as int,
        }
    }
}

/// A fold of fewer than 2^64 results of 64 bits leaves room for one more.
proof fn lemma_total_has_room(ids: Seq<usize>, values: Seq<i64>)
    requires
        ids.len() <= usize::MAX,
    ensures
        i128::MIN - (i64::MIN as int) <= crate::protocol::sum_over(ids, values) <= i128::MAX - (
        i64::MAX as int),
{
    lemma_sum_over_bounds(ids, values);
    let n = ids.len() as int;
    assert(n * (i64::MIN as int) >= 0xffff_ffff_ffff_ffff * (i64::MIN as int))
        by (nonlinear_arith)
        requires
            0 <= n <= 0xffff_ffff_ffff_ffff,
    ;
    assert(n * (i64::MAX as int) <= 0xffff_ffff_ffff_ffff * (i64::MAX as int))
        by (nonlinear_arith)
        requires
            0 <= n <= 0xffff_ffff_ffff_ffff,
    ;
}

proof fn lemma_sum_over_bounds(ids: Seq<usize>, values: Seq<i64>)
    ensures
        ids.len() * (i64::MIN as int) <= crate::protocol::sum_over(ids, values) <= ids.len() * (
        i64::MAX as int),
    decreases ids.len(),
{
    let n = ids.len() as int;
    if n > 0 {
        lemma_sum_over_bounds(ids.drop_last(), values);
        assert((n - 1) * (i64::MIN as int) + (i64::MIN as int) == n * (i64::MIN as int))
            by (nonlinear_arith);
        assert((n - 1) * (i64::MAX as int) + (i64::MAX as int) == n * (i64::MAX as int))
            by (nonlinear_arith);
    } else {
        assert(0 * (i64::MIN as int) == 0 && 0 * (i64::MAX as int) == 0) by (nonlinear_arith);
    }
}

impl Pipeline {
    /// What every pipeline keeps: its queue is within its capacity, it has a
    /// worker, and its state meets the invariant of the protocol.
    pub closed spec fn wf(&self) -> bool {
        &&& self.queue.well_formed()
        &&& self@.workers.len() >= 1
        &&& self@.inv()
    }

    /// A pipeline is always in a state that meets the invariant of the
    /// protocol, its queue within its capacity, and it has a worker.
    pub proof fn lemma_meets_invariant(&self)
        requires
            self.wf(),
        ensures
            self@.inv(),
            self@.pending.len() <= self@.capacity,
            self@.workers.len() >= 1,
    {
    }

    /// A pipeline in which nothing has moved yet. Job `j` has the partial
    /// result `values[j]`.
    pub fn new(values: Vec<i64>, producers: usize, workers: usize, capacity: usize) -> (pipeline:
        Self)
        requires
            producers >= 1,
            workers >= 1,
        ensures
            pipeline.wf(),
            pipeline@ == PipelineView::initial(
                values@,
                producers as nat,
                workers as nat,
                capacity as nat,
            ),
    {
        let jobs: usize = values.len();
        let mut cursors: Vec<usize> = Vec::new();
        let mut p: usize = 0;
        while p < producers
            invariant
                p <= producers,
                producers >= 1,
                jobs == values@.len(),
                cursors@.len() == p,
                forall|q: int|
                    0 <= q < p ==> cursors@[q] == crate::producer::share_start(
                        jobs as nat,
                        producers as nat,
                        q as nat,
                    ),
            decreases producers - p,
        {
            let range = share_range(jobs, producers, p);
            cursors.push(range.0);
            p += 1;
        }
        let mut states: Vec<WorkerState> = Vec::new();
        let mut stops_observed: Vec<usize> = Vec::new();
        let mut w: usize = 0;
        while w < workers
            invariant
                w <= workers,
                states@.len() == w,
                stops_observed@.len() == w,
                forall|i: int| 0 <= i < w ==> states@[i] == WorkerState::Idle,
                forall|i: int| 0 <= i < w ==> stops_observed@[i] == 0,
            decreases workers - w,
        {
            states.push(WorkerState::Idle);
            stops_observed.push(0);
            w += 1;
        }
        let pipeline = Pipeline {
            values,
            cursors,
            queue: BoundedQueue::new(capacity),
            signals_sent: 0,
            workers: states,
            stops_observed,
            processed: Vec::new(),
            total: 0,
        };
        proof {
            let start = PipelineView::initial(
                pipeline.values@,
                producers as nat,
                workers as nat,
                capacity as nat,
            );
            lemma_initial_inv(pipeline.values@, producers as nat, workers as nat, capacity as nat);
            assert(pipeline@.cursors =~= start.cursors);
            assert(pipeline@.workers =~= start.workers);
            assert(pipeline@.stops_observed =~= start.stops_observed);
            assert(pipeline@ =~= start);
        }
        pipeline
    }

    /// Whether every producer has enqueued its whole share.
    pub fn producers_finished(&self) -> (done: bool)
        requires
            self.wf(),
        ensures
            done == self@.producers_done(),
    {
        let jobs: usize = self.values.len();
        let producers: usize = self.cursors.len();
        let mut p: usize = 0;
        while p < producers
            invariant
                self.wf(),
                p <= producers,
                producers == self@.producers(),
                jobs == self@.jobs(),
                forall|q: int| 0 <= q < p ==> #[trigger] self@.cursors[q] == self@.end(q),
            decreases producers - p,
        {
            let range = share_range(jobs, producers, p);
            if self.cursors[p] != range.1 {
                assert(self@.cursors[p as int] != self@.end(p as int));
                return false;
            }
            p += 1;
        }
        true
    }

    /// Whether the run is over: every worker has stopped.
    pub fn is_finished(&self) -> (finished: bool)
        requires
            self.wf(),
        ensures
            finished == self@.finished(),
    {
        let mut w: usize = 0;
        while w < self.workers.len()
            invariant
                w <= self.workers@.len(),
                forall|i: int| 0 <= i < w ==> ended(#[trigger] self@.workers[i]),
            decreases self.workers@.len() - w,
        {
            match self.workers[w] {
                WorkerState::Stopped => {},
                WorkerState::Released => {},
                _ => {
                    assert(!ended(self@.workers[w as int]));
                    return false;
                },
            }
            w += 1;
        }
        true
    }

    /// Performs the move of one actor, if it can move.
    pub fn step(&mut self, event: Event) -> (progress: Progress)
        requires
            old(self).wf(),
        ensures
            final(self).wf(),
            final(self)@ == old(self)@.next(event),
            progress == old(self)@.progress(event),
    {
        proof {
            lemma_next_keeps_inv(self@, event);
        }
        match event {
            Event::Produce(p) => self.produce(p),
            Event::Signal => self.signal(),
            Event::Close => self.close(),
            Event::Receive(w) => self.receive(w),
            Event::Deliver(w) => self.deliver(w),
        }
    }

    fn produce(&mut self, p: usize) -> (progress: Progress)
        requires
            old(self).wf(),
            old(self)@.next(Event::Produce(p)).inv(),
        ensures
            final(self).wf(),
            final(self)@ == old(self)@.next(Event::Produce(p)),
            progress == old(self)@.progress(Event::Produce(p)),
    {
        if p >= self.cursors.len() {
            return Progress::Ignored;
        }
        let range = share_range(self.values.len(), self.cursors.len(), p);
        let job: usize = self.cursors[p];
        assert(self@.start(p as int) <= self@.cursors[p as int] <= self@.end(p as int));
        if job >= range.1 {
            return Progress::Ignored;
        }
        match self.queue.try_send(Message::Job(job)) {
            Ok(()) => {
                self.cursors.set(p, job + 1);
                assert(self@ =~= old(self)@.next(Event::Produce(p)));
                Progress::Advanced
            },
            Err(_) => {
                assert(self@ =~= old(self)@);
                Progress::Blocked
            },
        }
    }

    fn signal(&mut self) -> (progress: Progress)
        requires
            old(self).wf(),
            old(self)@.next(Event::Signal).inv(),
        ensures
            final(self).wf(),
            final(self)@ == old(self)@.next(Event::Signal),
            progress == old(self)@.progress(Event::Signal),
    {
        if self.signals_sent >= self.workers.len() || self.queue.is_closed() {
            return Progress::Ignored;
        }
        if !self.producers_finished() {
            return Progress::Blocked;
        }
        match self.queue.try_send(Message::Stop) {
            Ok(()) => {
                self.signals_sent = self.signals_sent + 1;
                assert(self@ =~= old(self)@.next(Event::Signal));
                Progress::Advanced
            },
            Err(_) => {
                assert(self@ =~= old(self)@);
                Progress::Blocked
            },
        }
    }

    fn close(&mut self) -> (progress: Progress)
        requires
            old(self).wf(),
            old(self)@.next(Event::Close).inv(),
        ensures
            final(self).wf(),
            final(self)@ == old(self)@.next(Event::Close),
            progress == old(self)@.progress(Event::Close),
    {
        if self.queue.is_closed() {
            return Progress::Ignored;
        }
        if !self.producers_finished() {
            return Progress::Blocked;
        }
        self.queue.close();
        assert(self@ =~= old(self)@.next(Event::Close));
        Progress::Advanced
    }

    fn receive(&mut self, w: usize) -> (progress: Progress)
        requires
            old(self).wf(),
            old(self)@.next(Event::Receive(w)).inv(),
        ensures
            final(self).wf(),
            final(self)@ == old(self)@.next(Event::Receive(w)),
            progress == old(self)@.progress(Event::Receive(w)),
    {
        if w >= self.workers.len() {
            return Progress::Ignored;
        }
        match self.workers[w] {
            WorkerState::Idle => {},
            _ => {
                return Progress::Ignored;
            },
        }
        assert(self@.stops_observed[w as int] == 0);
        match self.queue.try_receive() {
            Received::Item(Message::Job(job)) => {
                self.workers.set(w, WorkerState::Busy(job));
                assert(self@ =~= old(self)@.next(Event::Receive(w)));
                Progress::Advanced
            },
            Received::Item(Message::Stop) => {
                self.workers.set(w, WorkerState::Stopped);
                let seen: usize = self.stops_observed[w];
                self.stops_observed.set(w, seen + 1);
                assert(self@ =~= old(self)@.next(Event::Receive(w)));
                Progress::Advanced
            },
            Received::Drained => {
                self.workers.set(w, WorkerState::Released);
                let seen: usize = self.stops_observed[w];
                self.stops_observed.set(w, seen + 1);
                assert(self@ =~= old(self)@.next(Event::Receive(w)));
                Progress::Advanced
            },
            Received::Empty => {
                assert(self@ =~= old(self)@);
                Progress::Blocked
            },
        }
    }

    fn deliver(&mut self, w: usize) -> (progress: Progress)
        requires
            old(self).wf(),
            old(self)@.next(Event::Deliver(w)).inv(),
        ensures
            final(self).wf(),
            final(self)@ == old(self)@.next(Event::Deliver(w)),
            progress == old(self)@.progress(Event::Deliver(w)),
    {
        if w >= self.workers.len() {
            return Progress::Ignored;
        }
        match self.workers[w] {
            WorkerState::Busy(job) => {
                let delivered: usize = self.processed.len();
                proof {
                    assert(self.processed@.len() == delivered);
                    lemma_total_has_room(self.processed@, self.values@);
                }
                self.total = self.total + self.values[job] as i128;
                self.processed.push(job);
                self.workers.set(w, WorkerState::Idle);
                assert(self@ =~= old(self)@.next(Event::Deliver(w)));
                Progress::Advanced
            },
            _ => Progress::Ignored,
        }
    }

    /// Performs the events of `schedule` in order and says how many of them
    /// moved an actor.
    pub fn run(&mut self, schedule: &Vec<Event>) -> (advanced: usize)
        requires
            old(self).wf(),
        ensures
            final(self).wf(),
            final(self)@ == old(self)@.run(schedule@),
            advanced == old(self)@.moves(schedule@),
    {
        let mut advanced: usize = 0;
        let mut i: usize = 0;
        assert(schedule@.take(0) =~= Seq::<Event>::empty());
        while i < schedule.len()
            invariant
                self.wf(),
                advanced <= i <= schedule@.len(),
                self@ == old(self)@.run(schedule@.take(i as int)),
                advanced == old(self)@.moves(schedule@.take(i as int)),
            decreases schedule@.len() - i,
        {
            proof {
                let upto = schedule@.take(i as int + 1);
                assert(upto.drop_last() =~= schedule@.take(i as int));
                assert(upto.last() == schedule@[i as int]);
            }
            match self.step(schedule[i]) {
                Progress::Advanced => {
                    advanced += 1;
                },
                _ => {},
            }
            i += 1;
        }
        assert(schedule@.take(i as int) =~= schedule@);
        advanced
    }

    /// Lets every actor try one move: the producers in order, then the
    /// coordinator, which sends a signal, then each worker, which takes an
    /// entry and delivers its result at once. Says whether anyone moved.
    fn round(&mut self) -> (moved: bool)
        requires
            old(self).wf(),
        ensures
            final(self).wf(),
            exists|schedule: Seq<Event>| final(self)@ == old(self)@.run(schedule),
            moved ==> final(self)@.remaining() < old(self)@.remaining(),
            !moved ==> final(self)@ == old(self)@,
            !moved ==> forall|event: Event|
                event != Event::Close ==> !old(self)@.enabled(event),
    {
        let ghost start = self@;
        let ghost mut trace: Seq<Event> = Seq::empty();
        let mut moved = false;
        let producers: usize = self.cursors.len();
        let workers: usize = self.workers.len();
        let mut p: usize = 0;
        while p < producers
            invariant
                self.wf(),
                p <= producers == start.producers(),
                workers == start.workers.len(),
                self@ == start.run(trace),
                start.inv(),
                moved ==> self@.remaining() < start.remaining(),
                !moved ==> self@ == start,
                !moved ==> forall|q: usize| q < p ==> !start.enabled(Event::Produce(q)),
            decreases producers - p,
        {
            proof {
                lemma_move_uses_up_one(self@, Event::Produce(p));
                assert(trace.push(Event::Produce(p)).drop_last() =~= trace);
            }
            match self.step(Event::Produce(p)) {
                Progress::Advanced => {
                    moved = true;
                },
                _ => {},
            }
            proof {
                trace = trace.push(Event::Produce(p));
            }
            p += 1;
        }
        proof {
            lemma_move_uses_up_one(self@, Event::Signal);
            assert(trace.push(Event::Signal).drop_last() =~= trace);
        }
        match self.step(Event::Signal) {
            Progress::Advanced => {
                moved = true;
            },
            _ => {},
        }
        proof {
            trace = trace.push(Event::Signal);
        }
        let mut w: usize = 0;
        while w < workers
            invariant
                self.wf(),
                producers == start.producers(),
                w <= workers == start.workers.len(),
                self@ == start.run(trace),
                start.inv(),
                moved ==> self@.remaining() < start.remaining(),
                !moved ==> self@ == start,
                !moved ==> forall|q: usize| q < producers ==> !start.enabled(Event::Produce(q)),
                !moved ==> !start.enabled(Event::Signal),
                !moved ==> forall|v: usize|
                    v < w ==> !start.enabled(Event::Receive(v)) && !start.enabled(
                        Event::Deliver(v),
                    ),
            decreases workers - w,
        {
            proof {
                lemma_move_uses_up_one(self@, Event::Receive(w));
                assert(trace.push(Event::Receive(w)).drop_last() =~= trace);
            }
            match self.step(Event::Receive(w)) {
                Progress::Advanced => {
                    moved = true;
                },
                _ => {},
            }
            proof {
                trace = trace.push(Event::Receive(w));
                assert(self@ == start.run(trace));
                lemma_move_uses_up_one(self@, Event::Deliver(w));
                assert(trace.push(Event::Deliver(w)).drop_last() =~= trace);
            }
            match self.step(Event::Deliver(w)) {
                Progress::Advanced => {
                    moved = true;
                },
                _ => {},
            }
            proof {
                trace = trace.push(Event::Deliver(w));
                assert(self@ == start.run(trace));
            }
            w += 1;
        }
        proof {
            if !moved {
                assert forall|event: Event| event != Event::Close implies !start.enabled(
                    event,
                ) by {
                    match event {
                        Event::Produce(q) => {
                            if q < producers {
                                assert(!start.enabled(Event::Produce(q)));
                            }
                        },
                        Event::Signal => {},
                        Event::Close => {},
                        Event::Receive(v) => {
                            if v < workers {
                                assert(!start.enabled(Event::Receive(v)));
                            }
                        },
                        Event::Deliver(v) => {
                            if v < workers {
                                assert(!start.enabled(Event::Deliver(v)));
                            }
                        },
                    }
                }
            }
        }
        moved
    }

    /// Runs the pipeline to its end under a fixed, fair schedule: round after
    /// round, every actor in turn tries one move. The pool is shut down by
    /// termination signals, unless the queue was closed before. The run
    /// always ends, and it ends as every finished run does: with every job
    /// executed once and the total equal to the sum of all partial results.
    pub fn run_to_completion(&mut self)
        requires
            old(self).wf(),
            old(self)@.capacity >= 1,
        ensures
            final(self).wf(),
            final(self)@.finished(),
            exists|schedule: Seq<Event>| final(self)@ == old(self)@.run(schedule),
            final(self)@.values == old(self)@.values,
            final(self)@.total == seq_sum(old(self)@.values),
            final(self)@.processed.len() == old(self)@.jobs(),
    {
        let ghost mut trace: Seq<Event> = Seq::empty();
        while !self.is_finished()
            invariant
                self.wf(),
                self@.capacity >= 1,
                self@ == old(self)@.run(trace),
            decreases self@.remaining(),
        {
            let ghost before = self@;
            let moved = self.round();
            proof {
                if !moved {
                    lemma_some_actor_can_move(before);
                }
                lemma_remaining_nonnegative(self@);
                let more = choose|schedule: Seq<Event>| self@ == before.run(schedule);
                lemma_run_concat(old(self)@, trace, more);
                crate::protocol_laws::lemma_run_keeps_setup(before, more);
                trace = trace + more;
            }
        }
        proof {
            lemma_finished_run(self@);
            crate::protocol_laws::lemma_run_keeps_setup(old(self)@, trace);
        }
    }

    /// The number of entries on the queue, which never exceeds the capacity.
    pub fn queue_len(&self) -> (len: usize)
        requires
            self.wf(),
        ensures
            len == self@.pending.len(),
            len <= self@.capacity,
    {
        self.queue.len()
    }

    /// Whether the queue was closed.
    pub fn is_closed(&self) -> (closed: bool)
        ensures
            closed == self@.closed,
    {
        self.queue.is_closed()
    }

    /// The capacity of the queue.
    pub fn capacity(&self) -> (capacity: usize)
        ensures
            capacity == self@.capacity,
    {
        self.queue.capacity()
    }

    /// What worker `w` is doing.
    pub fn worker(&self, w: usize) -> (state: WorkerState)
        requires
            w < self@.workers.len(),
        ensures
            state == self@.workers[w as int],
    {
        self.workers[w]
    }

    /// How often worker `w` was told to stop.
    pub fn stops_observed(&self, w: usize) -> (seen: usize)
        requires
            w < self@.stops_observed.len(),
        ensures
            seen == self@.stops_observed[w as int],
    {
        self.stops_observed[w]
    }

    /// The indices of the executed jobs, in the order of delivery.
    pub fn processed(&self) -> (ids: &Vec<usize>)
        ensures
            ids@ == self@.processed,
    {
        &self.processed
    }

    /// The aggregated value and whether as many results arrived as there are
    /// jobs. After a finished run the value is the sum of all partial results
    /// and the count is complete.
    pub fn outcome(&self) -> (outcome: (i128, bool))
        requires
            self.wf(),
        ensures
            outcome.0 == self@.total,
            outcome.1 == (self@.processed.len() == self@.jobs()),
            self@.finished() ==> outcome.0 == seq_sum(self@.values) && outcome.1,
    {
        proof {
            if self@.finished() {
                lemma_finished_run(self@);
            }
        }
        (self.total, self.processed.len() == self.values.len())
    }

    /// The counters of the run so far. After a finished run every job was
    /// produced and consumed, every worker was told to stop once, and nothing
    /// is flagged.
    pub fn summary(&self) -> (result: ProducerConsumerResult)
        requires
            self.wf(),
        ensures
            result.produced == self@.produced(),
            result.consumed == self@.processed.len(),
            result.sentinels == self@.sentinels(),
            result.deadlock_detected == (result.produced != self@.jobs() || result.consumed
                != self@.jobs() || result.sentinels != self@.workers.len()),
            self@.finished() ==> !result.deadlock_detected,
    {
        let jobs: usize = self.values.len();
        let producers: usize = self.cursors.len();
        let mut produced: usize = 0;
        let mut p: usize = 0;
        while p < producers
            invariant
                self.wf(),
                p <= producers,
                producers == self@.producers(),
                jobs == self@.jobs(),
                produced == self@.produced_upto(p as nat),
            decreases producers - p,
        {
            let range = share_range(jobs, producers, p);
            proof {
                lemma_produced_bounds(self@, p as nat);
                lemma_produced_bounds(self@, (p + 1) as nat);
                assert(self@.start(p as int) <= self@.cursors[p as int] <= self@.end(p as int));
            }
            produced = produced + (self.cursors[p] - range.0);
            p += 1;
        }
        let mut sentinels: usize = 0;
        let mut w: usize = 0;
        assert(self@.stops_observed.take(0) =~= Seq::<usize>::empty());
        while w < self.stops_observed.len()
            invariant
                self.wf(),
                w <= self@.stops_observed.len(),
                sentinels <= w,
                sentinels == crate::protocol::count_sum(self@.stops_observed.take(w as int)),
            decreases self@.stops_observed.len() - w,
        {
            proof {
                let upto = self@.stops_observed.take(w as int + 1);
                assert(upto.drop_last() =~= self@.stops_observed.take(w as int));
                assert(self@.stops_observed[w as int] <= 1);
            }
            sentinels = sentinels + self.stops_observed[w];
            w += 1;
        }
        proof {
            assert(self@.stops_observed.take(w as int) =~= self@.stops_observed);
            if self@.finished() {
                lemma_finished_counts(self@);
            }
        }
        ProducerConsumerResult::from_counts(
            produced,
            self.processed.len(),
            sentinels,
            jobs,
            self.workers.len(),
        )
    }
}

} // verus!
