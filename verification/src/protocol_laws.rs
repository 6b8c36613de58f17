//! Proofs about the shutdown protocol: its invariant holds in every state a
//! schedule can reach, and a finished run has lost and repeated nothing.

use crate::aggregate::seq_sum;
use crate::counting::{
    lemma_occurrences_all, lemma_occurrences_at_most_len, lemma_occurrences_drop_first,
    lemma_occurrences_empty, lemma_occurrences_positive, lemma_occurrences_push,
    lemma_occurrences_remove, lemma_occurrences_update, occurrences,
};
use crate::pool::Message;
use crate::producer::{
    lemma_owner_exists, lemma_share_bounds, lemma_share_start_step, lemma_shares_disjoint,
};
use crate::protocol::{
    active_count, busy_count, count_sum, ended, sum_over, Event, PipelineView, WorkerState,
};
use vstd::prelude::*;

verus! {

/// The invariant holds before anything has moved.
pub proof fn lemma_initial_inv(values: Seq<i64>, producers: nat, workers: nat, capacity: nat)
    requires
        1 <= producers <= usize::MAX,
        workers <= usize::MAX,
        values.len() <= usize::MAX,
    ensures
        PipelineView::initial(values, producers, workers, capacity).inv(),
{
    let s = PipelineView::initial(values, producers, workers, capacity);
    assert forall|p: int| 0 <= p < s.producers() implies s.start(p) <= #[trigger] s.cursors[p]
        <= s.end(p) by {
        lemma_share_bounds(values.len(), producers, p as nat);
        lemma_share_start_step(values.len(), producers, p as nat);
    }
    lemma_occurrences_empty(Message::<usize>::Stop);
    lemma_occurrences_positive(s.workers, WorkerState::Stopped);
    lemma_occurrences_positive(s.workers, WorkerState::Released);
    assert forall|j: usize| #[trigger] s.copies(j) == 0 && !s.sent(j) by {
        lemma_occurrences_empty(Message::Job(j));
        lemma_occurrences_empty(j);
        lemma_occurrences_positive(s.workers, WorkerState::Busy(j));
        assert forall|p: int| !#[trigger] s.sent_by(p, j) by {
            if 0 <= p < s.producers() {
                lemma_share_bounds(values.len(), producers, p as nat);
            }
        }
    }
}

/// An enqueued job belongs to exactly one producer, so the job a producer is
/// about to enqueue has not been enqueued before.
proof fn lemma_next_job_is_new(s: PipelineView, p: int)
    requires
        s.well_shaped(),
        0 <= p < s.producers(),
        s.cursors[p] < s.end(p),
    ensures
        !s.sent(s.cursors[p]),
{
    let j = s.cursors[p];
    assert forall|q: int| !#[trigger] s.sent_by(q, j) by {
        if s.sent_by(q, j) {
            assert(s.cursors[q] <= s.end(q));
            if q != p {
                lemma_shares_disjoint(s.jobs(), s.producers(), p as nat, q as nat, j as nat);
            }
        }
    }
}

/// While a producer still has work, the shutdown has not begun: no
/// termination signal exists anywhere and the queue is open.
proof fn lemma_no_signal_while_producing(s: PipelineView, p: int)
    requires
        s.inv(),
        0 <= p < s.producers(),
        s.cursors[p] < s.end(p),
    ensures
        s.signals_sent == 0,
        !s.closed,
        s.stopped_workers() == 0,
        s.released_workers() == 0,
        s.pending_signals() == 0,
        forall|i: int| 0 <= i < s.pending.len() ==> s.pending[i] != Message::<usize>::Stop,
{
    assert(!s.producers_done());
    lemma_occurrences_positive(s.pending, Message::<usize>::Stop);
}

/// The invariant survives a producer's move.
pub proof fn lemma_produce_keeps_inv(s: PipelineView, p: int)
    requires
        s.inv(),
        s.can_produce(p),
    ensures
        s.after_produce(p).inv(),
{
    let t = s.after_produce(p);
    let j0 = s.cursors[p];
    lemma_share_bounds(s.jobs(), s.producers(), p as nat);
    lemma_no_signal_while_producing(s, p);
    lemma_next_job_is_new(s, p);
    lemma_occurrences_push(s.pending, Message::Job(j0), Message::<usize>::Stop);
    assert(t.well_shaped());
    assert(t.signals_follow_jobs());
    assert(t.signals_accounted());
    assert forall|j: usize| #[trigger]
        t.copies(j) == if t.sent(j) {
            1nat
        } else {
            0nat
        } by {
        lemma_occurrences_push(s.pending, Message::Job(j0), Message::Job(j));
        assert(s.copies(j) == if s.sent(j) {
            1nat
        } else {
            0nat
        });
        if j == j0 {
            assert(t.sent_by(p, j));
        } else if s.sent(j) {
            let q = choose|q: int| s.sent_by(q, j);
            assert(t.sent_by(q, j));
        } else {
            assert forall|q: int| !#[trigger] t.sent_by(q, j) by {
                if t.sent_by(q, j) {
                    assert(s.sent_by(q, j));
                }
            }
        }
    }
}

/// Moves that leave the producers alone leave alone which jobs were enqueued.
proof fn lemma_sent_unchanged(s: PipelineView, t: PipelineView, j: usize)
    requires
        t.values == s.values,
        t.cursors == s.cursors,
    ensures
        t.sent(j) == s.sent(j),
{
    if s.sent(j) {
        let q = choose|q: int| s.sent_by(q, j);
        assert(t.sent_by(q, j));
    }
    if t.sent(j) {
        let q = choose|q: int| t.sent_by(q, j);
        assert(s.sent_by(q, j));
    }
}

/// The invariant survives the coordinator's move.
pub proof fn lemma_signal_keeps_inv(s: PipelineView)
    requires
        s.inv(),
        s.can_signal(),
    ensures
        s.after_signal().inv(),
{
    let t = s.after_signal();
    lemma_occurrences_push(s.pending, Message::<usize>::Stop, Message::<usize>::Stop);
    assert(t.well_shaped());
    assert(t.producers_done()) by {
        assert forall|p: int| 0 <= p < t.producers() implies #[trigger] t.cursors[p] == t.end(
            p,
        ) by {
            assert(s.cursors[p] == s.end(p));
        }
    }
    assert(t.signals_follow_jobs());
    assert(t.signals_accounted());
    assert forall|j: usize| #[trigger]
        t.copies(j) == if t.sent(j) {
            1nat
        } else {
            0nat
        } by {
        lemma_occurrences_push(s.pending, Message::<usize>::Stop, Message::Job(j));
        lemma_sent_unchanged(s, t, j);
        assert(s.copies(j) == if s.sent(j) {
            1nat
        } else {
            0nat
        });
    }
}

/// The invariant survives the closing of the queue.
pub proof fn lemma_close_keeps_inv(s: PipelineView)
    requires
        s.inv(),
        s.can_close(),
    ensures
        s.after_close().inv(),
{
    let t = s.after_close();
    assert(t.well_shaped());
    assert(t.producers_done()) by {
        assert forall|p: int| 0 <= p < t.producers() implies #[trigger] t.cursors[p] == t.end(
            p,
        ) by {
            assert(s.cursors[p] == s.end(p));
        }
    }
    assert(t.signals_follow_jobs());
    assert(t.signals_accounted());
    assert forall|j: usize| #[trigger]
        t.copies(j) == if t.sent(j) {
            1nat
        } else {
            0nat
        } by {
        lemma_sent_unchanged(s, t, j);
        assert(s.copies(j) == if s.sent(j) {
            1nat
        } else {
            0nat
        });
    }
}

/// The invariant survives a worker taking an entry off the queue, or finding
/// the queue closed and drained.
pub proof fn lemma_receive_keeps_inv(s: PipelineView, w: int)
    requires
        s.inv(),
        s.can_receive(w),
    ensures
        s.after_receive(w).inv(),
{
    let t = s.after_receive(w);
    if s.pending.len() == 0 {
        lemma_occurrences_update(s.workers, w, WorkerState::Released, WorkerState::Stopped);
        lemma_occurrences_update(s.workers, w, WorkerState::Released, WorkerState::Released);
        assert(t.well_shaped());
        assert(t.producers_done() == s.producers_done());
        assert(t.signals_follow_jobs());
        assert(t.signals_accounted());
        assert forall|j: usize| #[trigger]
            t.copies(j) == if t.sent(j) {
                1nat
            } else {
                0nat
            } by {
            lemma_sent_unchanged(s, t, j);
            lemma_occurrences_update(s.workers, w, WorkerState::Released, WorkerState::Busy(j));
            assert(s.copies(j) == if s.sent(j) {
                1nat
            } else {
                0nat
            });
        }
    } else {
        lemma_take_keeps_inv(s, w);
    }
}

proof fn lemma_take_keeps_inv(s: PipelineView, w: int)
    requires
        s.inv(),
        s.can_receive(w),
        s.pending.len() > 0,
    ensures
        s.after_receive(w).inv(),
{
    let t = s.after_receive(w);
    let first = s.pending[0];
    lemma_occurrences_drop_first(s.pending, Message::<usize>::Stop);
    assert(s.released_workers() == 0);
    assert forall|i: int| 0 <= i < t.pending.len() implies t.pending[i] == s.pending[i + 1] by {}
    match first {
        Message::Job(job) => {
            lemma_occurrences_update(s.workers, w, WorkerState::Busy(job), WorkerState::Stopped);
            lemma_occurrences_update(s.workers, w, WorkerState::Busy(job), WorkerState::Released);
            assert(s.stopped_workers() == 0);
            assert(t.pending_signals() == s.pending_signals());
            assert(t.stopped_workers() == 0);
        },
        Message::Stop => {
            lemma_occurrences_update(s.workers, w, WorkerState::Stopped, WorkerState::Stopped);
            lemma_occurrences_update(s.workers, w, WorkerState::Stopped, WorkerState::Released);
            assert forall|i: int| 0 <= i < t.pending.len() implies t.pending[i]
                == Message::<usize>::Stop by {
                assert(s.pending[0] == Message::<usize>::Stop);
                assert(s.pending[i + 1] == Message::<usize>::Stop);
            }
        },
    }
    assert(t.released_workers() == 0);
    assert(t.well_shaped());
    assert(t.producers_done() == s.producers_done());
    assert(t.signals_follow_jobs());
    assert(t.signals_accounted());
    assert forall|j: usize| #[trigger]
        t.copies(j) == if t.sent(j) {
            1nat
        } else {
            0nat
        } by {
        lemma_occurrences_drop_first(s.pending, Message::Job(j));
        lemma_sent_unchanged(s, t, j);
        match first {
            Message::Job(job) => {
                lemma_occurrences_update(
                    s.workers,
                    w,
                    WorkerState::Busy(job),
                    WorkerState::Busy(j),
                );
            },
            Message::Stop => {
                lemma_occurrences_update(s.workers, w, WorkerState::Stopped, WorkerState::Busy(j));
            },
        }
        assert(s.copies(j) == if s.sent(j) {
            1nat
        } else {
            0nat
        });
    }
}

/// Delivering one more result adds it to the fold.
pub proof fn lemma_sum_over_push(ids: Seq<usize>, values: Seq<i64>, j: usize)
    ensures
        sum_over(ids.push(j), values) == sum_over(ids, values) + values[j as int],
{
    assert(ids.push(j).drop_last() =~= ids);
}

/// The invariant survives a worker delivering a result.
pub proof fn lemma_deliver_keeps_inv(s: PipelineView, w: int)
    requires
        s.inv(),
        s.can_deliver(w),
    ensures
        s.after_deliver(w).inv(),
{
    let t = s.after_deliver(w);
    let job = s.workers[w]->Busy_0;
    lemma_occurrences_update(s.workers, w, WorkerState::Idle, WorkerState::Stopped);
    lemma_occurrences_update(s.workers, w, WorkerState::Idle, WorkerState::Released);
    lemma_sum_over_push(s.processed, s.values, job);
    assert(t.well_shaped());
    assert(t.producers_done() == s.producers_done());
    assert(t.signals_follow_jobs());
    assert(t.signals_accounted());
    assert forall|j: usize| #[trigger]
        t.copies(j) == if t.sent(j) {
            1nat
        } else {
            0nat
        } by {
        lemma_occurrences_update(s.workers, w, WorkerState::Idle, WorkerState::Busy(j));
        lemma_occurrences_push(s.processed, job, j);
        lemma_sent_unchanged(s, t, j);
        assert(s.copies(j) == if s.sent(j) {
            1nat
        } else {
            0nat
        });
    }
}

/// The invariant survives every event, enabled or not.
pub proof fn lemma_next_keeps_inv(s: PipelineView, event: Event)
    requires
        s.inv(),
    ensures
        s.next(event).inv(),
{
    if s.enabled(event) {
        match event {
            Event::Produce(p) => lemma_produce_keeps_inv(s, p as int),
            Event::Signal => lemma_signal_keeps_inv(s),
            Event::Close => lemma_close_keeps_inv(s),
            Event::Receive(w) => lemma_receive_keeps_inv(s, w as int),
            Event::Deliver(w) => lemma_deliver_keeps_inv(s, w as int),
        }
    }
}

/// The invariant holds in every state that a schedule reaches.
pub proof fn lemma_run_keeps_inv(s: PipelineView, schedule: Seq<Event>)
    requires
        s.inv(),
    ensures
        s.run(schedule).inv(),
    decreases schedule.len(),
{
    if schedule.len() > 0 {
        lemma_run_keeps_inv(s, schedule.drop_last());
        lemma_next_keeps_inv(s.run(schedule.drop_last()), schedule.last());
    }
}

/// At every point of every schedule the queue holds no more than its capacity.
pub proof fn lemma_queue_within_capacity(
    values: Seq<i64>,
    producers: nat,
    workers: nat,
    capacity: nat,
    schedule: Seq<Event>,
)
    requires
        1 <= producers <= usize::MAX,
        workers <= usize::MAX,
        values.len() <= usize::MAX,
    ensures
        PipelineView::initial(values, producers, workers, capacity).run(schedule).pending.len()
            <= capacity,
{
    let start = PipelineView::initial(values, producers, workers, capacity);
    lemma_initial_inv(values, producers, workers, capacity);
    lemma_run_keeps_inv(start, schedule);
    lemma_run_keeps_setup(start, schedule);
}

/// No event changes the jobs, the capacity or the number of actors.
pub proof fn lemma_run_keeps_setup(s: PipelineView, schedule: Seq<Event>)
    ensures
        s.run(schedule).values == s.values,
        s.run(schedule).capacity == s.capacity,
        s.run(schedule).cursors.len() == s.cursors.len(),
        s.run(schedule).workers.len() == s.workers.len(),
    decreases schedule.len(),
{
    if schedule.len() > 0 {
        lemma_run_keeps_setup(s, schedule.drop_last());
    }
}

/// Taking one job out of a list takes its result out of the fold.
pub proof fn lemma_sum_over_remove(ids: Seq<usize>, values: Seq<i64>, i: int)
    requires
        0 <= i < ids.len(),
    ensures
        sum_over(ids.remove(i), values) == sum_over(ids, values) - values[ids[i] as int],
    decreases ids.len(),
{
    if i == ids.len() - 1 {
        assert(ids.remove(i) =~= ids.drop_last());
    } else {
        lemma_sum_over_remove(ids.drop_last(), values, i);
        assert(ids.remove(i).drop_last() =~= ids.drop_last().remove(i));
        assert(ids.remove(i).last() == ids.last());
    }
}

/// The fold looks only at the results of the jobs that are listed.
pub proof fn lemma_sum_over_agrees(ids: Seq<usize>, a: Seq<i64>, b: Seq<i64>)
    requires
        forall|k: int| 0 <= k < ids.len() ==> a[#[trigger] ids[k] as int] == b[ids[k] as int],
    ensures
        sum_over(ids, a) == sum_over(ids, b),
    decreases ids.len(),
{
    if ids.len() > 0 {
        assert forall|k: int| 0 <= k < ids.drop_last().len() implies a[#[trigger] ids.drop_last()[k] as int]
            == b[ids.drop_last()[k] as int] by {
            assert(ids.drop_last()[k] == ids[k]);
        }
        lemma_sum_over_agrees(ids.drop_last(), a, b);
        assert(ids.last() == ids[ids.len() - 1]);
    }
}

/// A list that names every job exactly once, in whatever order, folds to the
/// sum of all partial results, and is as long as there are jobs.
pub proof fn lemma_each_once_sums_all(ids: Seq<usize>, values: Seq<i64>)
    requires
        values.len() <= usize::MAX,
        forall|j: usize| #[trigger]
            occurrences(ids, j) == if j < values.len() {
                1nat
            } else {
                0nat
            },
    ensures
        ids.len() == values.len(),
        sum_over(ids, values) == seq_sum(values),
    decreases values.len(),
{
    if values.len() == 0 {
        if ids.len() > 0 {
            lemma_occurrences_positive(ids, ids[0]);
            assert(occurrences(ids, ids[0]) == 0);
        }
    } else {
        let last = (values.len() - 1) as usize;
        assert(occurrences(ids, last) == 1);
        lemma_occurrences_positive(ids, last);
        let i = choose|i: int| 0 <= i < ids.len() && ids[i] == last;
        let rest = ids.remove(i);
        let fewer = values.drop_last();
        assert forall|j: usize| #[trigger]
            occurrences(rest, j) == if j < fewer.len() {
                1nat
            } else {
                0nat
            } by {
            lemma_occurrences_remove(ids, i, j);
            assert(occurrences(ids, j) == if j < values.len() {
                1nat
            } else {
                0nat
            });
        }
        lemma_each_once_sums_all(rest, fewer);
        assert forall|k: int| 0 <= k < rest.len() implies fewer[#[trigger] rest[k] as int]
            == values[rest[k] as int] by {
            lemma_occurrences_positive(rest, rest[k]);
            assert(occurrences(rest, rest[k]) > 0);
        }
        lemma_sum_over_agrees(rest, fewer, values);
        lemma_sum_over_remove(ids, values, i);
    }
}

/// Once all producers are done, the enqueued jobs are exactly the jobs.
pub proof fn lemma_all_jobs_sent(s: PipelineView, j: usize)
    requires
        s.well_shaped(),
        s.producers_done(),
    ensures
        s.sent(j) == (j < s.jobs()),
{
    if s.sent(j) {
        let q = choose|q: int| s.sent_by(q, j);
        assert(s.cursors[q] <= s.end(q));
        lemma_share_bounds(s.jobs(), s.producers(), q as nat);
    }
    if j < s.jobs() {
        let owner = lemma_owner_exists(s.jobs(), s.producers(), j as nat);
        assert(s.cursors[owner as int] == s.end(owner as int));
        assert(s.sent_by(owner as int, j));
    }
}

/// What holds when a run is over, whatever its schedule was: the queue is
/// empty, every producer has enqueued its whole share, every worker was told
/// to stop exactly once, every job was executed exactly once, as many results
/// were delivered as there are jobs, and their total is the sum of all
/// partial results.
pub proof fn lemma_finished_run(s: PipelineView)
    requires
        s.inv(),
        s.finished(),
        s.workers.len() >= 1,
    ensures
        s.pending.len() == 0,
        s.producers_done(),
        forall|w: int| 0 <= w < s.workers.len() ==> s.stops_observed[w] == 1,
        forall|j: usize| #[trigger]
            occurrences(s.processed, j) == if j < s.jobs() {
                1nat
            } else {
                0nat
            },
        s.processed.len() == s.jobs(),
        s.total == seq_sum(s.values),
{
    lemma_occurrences_positive(s.workers, WorkerState::Released);
    if s.released_workers() == 0 {
        assert forall|w: int| 0 <= w < s.workers.len() implies s.workers[w]
            == WorkerState::Stopped by {
            assert(ended(s.workers[w]));
            assert(s.workers.contains(s.workers[w]));
        }
        lemma_occurrences_all(s.workers, WorkerState::Stopped);
        lemma_occurrences_positive(s.pending, Message::<usize>::Stop);
        if s.pending.len() > 0 {
            assert(s.pending[0] == Message::<usize>::Stop);
            assert(s.pending.contains(Message::<usize>::Stop));
        }
    }
    assert(s.pending.len() == 0);
    assert(s.producers_done());
    assert forall|w: int| 0 <= w < s.workers.len() implies s.stops_observed[w] == 1 by {
        assert(ended(s.workers[w]));
    }
    assert forall|j: usize| #[trigger]
        occurrences(s.processed, j) == if j < s.jobs() {
            1nat
        } else {
            0nat
        } by {
        lemma_all_jobs_sent(s, j);
        lemma_occurrences_empty(Message::Job(j));
        assert(s.pending =~= Seq::empty());
        lemma_occurrences_positive(s.workers, WorkerState::Busy(j));
        if s.workers.contains(WorkerState::Busy(j)) {
            let w = choose|w: int| 0 <= w < s.workers.len() && s.workers[w] == WorkerState::Busy(j);
            assert(ended(s.workers[w]));
        }
        assert(s.copies(j) == if s.sent(j) {
            1nat
        } else {
            0nat
        });
    }
    lemma_each_once_sums_all(s.processed, s.values);
}

/// The first `upto` producers have enqueued no more than their shares hold,
/// and exactly that much once they are done.
pub proof fn lemma_produced_bounds(s: PipelineView, upto: nat)
    requires
        s.well_shaped(),
        upto <= s.producers(),
    ensures
        0 <= s.produced_upto(upto) <= s.start(upto as int),
        s.producers_done() ==> s.produced_upto(upto) == s.start(upto as int),
    decreases upto,
{
    if upto == 0 {
        crate::producer::lemma_shares_cover(s.jobs(), s.producers());
    } else {
        lemma_produced_bounds(s, (upto - 1) as nat);
        let p = upto - 1;
        assert(s.start(p) <= s.cursors[p] <= s.end(p));
        if s.producers_done() {
            assert(s.cursors[p] == s.end(p));
        }
    }
}

/// If every worker has taken exactly one signal, as many signals were taken as
/// there are workers.
pub proof fn lemma_count_sum_ones(counts: Seq<usize>)
    requires
        forall|w: int| 0 <= w < counts.len() ==> counts[w] == 1,
    ensures
        count_sum(counts) == counts.len(),
    decreases counts.len(),
{
    if counts.len() > 0 {
        lemma_count_sum_ones(counts.drop_last());
    }
}

/// The counters of a finished run: as many jobs were enqueued as were
/// executed, namely all of them, and as many signals were taken as there are
/// workers.
pub proof fn lemma_finished_counts(s: PipelineView)
    requires
        s.inv(),
        s.finished(),
        s.workers.len() >= 1,
    ensures
        s.produced() == s.jobs(),
        s.processed.len() == s.jobs(),
        s.sentinels() == s.workers.len(),
{
    lemma_finished_run(s);
    lemma_produced_bounds(s, s.producers());
    crate::producer::lemma_shares_cover(s.jobs(), s.producers());
    lemma_count_sum_ones(s.stops_observed);
}

/// The total of a finished run does not depend on the schedule: two runs over
/// the same jobs that both finish give the same total, and it is the total a
/// sequential pass over the jobs gives.
pub proof fn lemma_total_independent_of_schedule(
    values: Seq<i64>,
    producers: nat,
    workers: nat,
    capacity: nat,
    first: Seq<Event>,
    second: Seq<Event>,
)
    requires
        1 <= producers <= usize::MAX,
        1 <= workers <= usize::MAX,
        values.len() <= usize::MAX,
        PipelineView::initial(values, producers, workers, capacity).run(first).finished(),
        PipelineView::initial(values, producers, workers, capacity).run(second).finished(),
    ensures
        PipelineView::initial(values, producers, workers, capacity).run(first).total == seq_sum(
            values,
        ),
        PipelineView::initial(values, producers, workers, capacity).run(second).total == seq_sum(
            values,
        ),
{
    let start = PipelineView::initial(values, producers, workers, capacity);
    lemma_initial_inv(values, producers, workers, capacity);
    lemma_run_keeps_inv(start, first);
    lemma_run_keeps_inv(start, second);
    lemma_run_keeps_setup(start, first);
    lemma_run_keeps_setup(start, second);
    lemma_finished_run(start.run(first));
    lemma_finished_run(start.run(second));
}

/// As long as a run is not over, some actor can move, even if the coordinator
/// never closes the queue: the protocol cannot deadlock on a queue that holds
/// at least one entry.
pub proof fn lemma_some_actor_can_move(s: PipelineView)
    requires
        s.inv(),
        !s.finished(),
        s.capacity >= 1,
    ensures
        exists|event: Event| #[trigger] s.enabled(event) && event != Event::Close,
{
    let w = choose|w: int| 0 <= w < s.workers.len() && !ended(#[trigger] s.workers[w]);
    if exists|b: int| 0 <= b < s.workers.len() && s.workers[b] is Busy {
        let b = choose|b: int| 0 <= b < s.workers.len() && s.workers[b] is Busy;
        assert(s.enabled(Event::Deliver(b as usize)));
    } else if s.pending.len() > 0 || s.closed {
        assert(s.workers[w] == WorkerState::Idle);
        assert(s.enabled(Event::Receive(w as usize)));
    } else if !s.producers_done() {
        let p = choose|p: int| 0 <= p < s.producers() && s.cursors[p] != s.end(p);
        assert(s.cursors[p] <= s.end(p));
        assert(s.enabled(Event::Produce(p as usize)));
    } else {
        assert(s.workers[w] != WorkerState::Stopped);
        lemma_occurrences_at_most_len(s.workers, WorkerState::Stopped);
        assert(s.pending =~= Seq::empty());
        lemma_occurrences_empty(Message::<usize>::Stop);
        assert(s.enabled(Event::Signal));
    }
}

/// Replacing what one worker does changes the number of workers that have
/// not stopped by that worker alone.
pub proof fn lemma_active_count_update(workers: Seq<WorkerState>, w: int, state: WorkerState)
    requires
        0 <= w < workers.len(),
    ensures
        active_count(workers.update(w, state)) == active_count(workers) - (if ended(workers[w]) {
            0int
        } else {
            1int
        }) + if ended(state) {
            0int
        } else {
            1int
        },
    decreases workers.len(),
{
    let changed = workers.update(w, state);
    if w == workers.len() - 1 {
        assert(changed.drop_last() =~= workers.drop_last());
    } else {
        lemma_active_count_update(workers.drop_last(), w, state);
        assert(changed.drop_last() =~= workers.drop_last().update(w, state));
    }
}

/// Replacing what one worker does changes the number of busy workers by that
/// worker alone.
pub proof fn lemma_busy_count_update(workers: Seq<WorkerState>, w: int, state: WorkerState)
    requires
        0 <= w < workers.len(),
    ensures
        busy_count(workers.update(w, state)) == busy_count(workers) - (if workers[w] is Busy {
            1int
        } else {
            0int
        }) + if state is Busy {
            1int
        } else {
            0int
        },
    decreases workers.len(),
{
    let changed = workers.update(w, state);
    if w == workers.len() - 1 {
        assert(changed.drop_last() =~= workers.drop_last());
    } else {
        lemma_busy_count_update(workers.drop_last(), w, state);
        assert(changed.drop_last() =~= workers.drop_last().update(w, state));
    }
}

/// A producer's move adds one to the number of enqueued jobs.
proof fn lemma_produced_step(s: PipelineView, p: int, upto: nat)
    requires
        0 <= p < s.producers(),
        upto <= s.producers(),
        s.cursors[p] < usize::MAX,
    ensures
        s.after_produce(p).produced_upto(upto) == s.produced_upto(upto) + if p < upto {
            1int
        } else {
            0int
        },
    decreases upto,
{
    if upto > 0 {
        lemma_produced_step(s, p, (upto - 1) as nat);
    }
}

/// Moves that leave the producers alone leave the number of enqueued jobs
/// alone.
proof fn lemma_produced_unchanged(s: PipelineView, t: PipelineView, upto: nat)
    requires
        t.values == s.values,
        t.cursors == s.cursors,
    ensures
        t.produced_upto(upto) == s.produced_upto(upto),
    decreases upto,
{
    if upto > 0 {
        lemma_produced_unchanged(s, t, (upto - 1) as nat);
    }
}

/// The number of moves left is never negative.
pub proof fn lemma_remaining_nonnegative(s: PipelineView)
    requires
        s.inv(),
    ensures
        s.remaining() >= 0,
{
    lemma_produced_bounds(s, s.producers());
    crate::producer::lemma_shares_cover(s.jobs(), s.producers());
    lemma_occurrences_at_most_len(s.pending, Message::<usize>::Stop);
}

/// Every move of an actor uses up at least one of the moves that are left,
/// and an event that moves nobody changes nothing: a run cannot go on
/// forever.
pub proof fn lemma_move_uses_up_one(s: PipelineView, event: Event)
    requires
        s.inv(),
    ensures
        s.enabled(event) ==> s.next(event).remaining() < s.remaining(),
        !s.enabled(event) ==> s.next(event) == s,
{
    if s.enabled(event) {
        let t = s.next(event);
        match event {
            Event::Produce(p) => {
                lemma_share_bounds(s.jobs(), s.producers(), p as nat);
                lemma_produced_step(s, p as int, s.producers());
                lemma_occurrences_push(
                    s.pending,
                    Message::Job(s.cursors[p as int]),
                    Message::<usize>::Stop,
                );
            },
            Event::Signal => {
                lemma_produced_unchanged(s, t, s.producers());
                lemma_occurrences_push(
                    s.pending,
                    Message::<usize>::Stop,
                    Message::<usize>::Stop,
                );
            },
            Event::Close => {
                lemma_produced_unchanged(s, t, s.producers());
            },
            Event::Receive(w) => {
                lemma_produced_unchanged(s, t, s.producers());
                if s.pending.len() == 0 {
                    lemma_busy_count_update(s.workers, w as int, WorkerState::Released);
                    lemma_active_count_update(s.workers, w as int, WorkerState::Released);
                } else {
                    lemma_occurrences_drop_first(s.pending, Message::<usize>::Stop);
                    match s.pending[0] {
                        Message::Job(job) => {
                            lemma_busy_count_update(s.workers, w as int, WorkerState::Busy(job));
                            lemma_active_count_update(
                                s.workers,
                                w as int,
                                WorkerState::Busy(job),
                            );
                        },
                        Message::Stop => {
                            lemma_busy_count_update(s.workers, w as int, WorkerState::Stopped);
                            lemma_active_count_update(s.workers, w as int, WorkerState::Stopped);
                        },
                    }
                }
            },
            Event::Deliver(w) => {
                lemma_produced_unchanged(s, t, s.producers());
                lemma_busy_count_update(s.workers, w as int, WorkerState::Idle);
                lemma_active_count_update(s.workers, w as int, WorkerState::Idle);
            },
        }
    }
}

/// Running one schedule after another is running the two as one.
pub proof fn lemma_run_concat(s: PipelineView, first: Seq<Event>, second: Seq<Event>)
    ensures
        s.run(first + second) == s.run(first).run(second),
        s.moves(first + second) == s.moves(first) + s.run(first).moves(second),
    decreases second.len(),
{
    if second.len() == 0 {
        assert(first + second =~= first);
    } else {
        lemma_run_concat(s, first, second.drop_last());
        assert((first + second).drop_last() =~= first + second.drop_last());
        assert((first + second).last() == second.last());
    }
}

/// A schedule moves actors no more often than moves were left at its start.
pub proof fn lemma_moves_are_bounded(s: PipelineView, schedule: Seq<Event>)
    requires
        s.inv(),
    ensures
        s.run(schedule).remaining() <= s.remaining() - s.moves(schedule),
        s.moves(schedule) <= s.remaining(),
        s.moves(schedule) <= schedule.len(),
    decreases schedule.len(),
{
    if schedule.len() > 0 {
        lemma_moves_are_bounded(s, schedule.drop_last());
        lemma_run_keeps_inv(s, schedule.drop_last());
        lemma_move_uses_up_one(s.run(schedule.drop_last()), schedule.last());
    }
    lemma_run_keeps_inv(s, schedule);
    lemma_remaining_nonnegative(s.run(schedule));
}

} // verus!
