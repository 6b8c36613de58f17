use syncbench::aggregate::{aggregate, matches_oracle};
use syncbench::blocks::{block_values, build_tasks, generate_data, sequential_process};
use syncbench::pipeline::{Pipeline, ProducerConsumerResult};
use syncbench::pool::{
    classify_item, join_report, shutdown_signals, worker_action, Message, PoolFailure,
    WorkerAction, WorkerExit,
};
use syncbench::prng::XorShift64;
use syncbench::producer::{share_len, share_range, tag_item, SENTINEL};
use syncbench::protocol::{Event, Progress, WorkerState};
use syncbench::queue::{BoundedQueue, Received, Refused};

/// Drives a pipeline with events drawn from a seeded generator until it is
/// finished, checking the queue bound after every event.
fn drive(pipeline: &mut Pipeline, producers: usize, workers: usize, seed: u64) -> usize {
    let mut generator = XorShift64::new(seed);
    let mut steps = 0usize;
    while !pipeline.is_finished() {
        let draw = generator.next_u64();
        let actor = ((draw >> 8) % 64) as usize;
        let event = match draw % 4 {
            0 => Event::Produce(actor % producers),
            1 => Event::Signal,
            2 => Event::Receive(actor % workers),
            _ => Event::Deliver(actor % workers),
        };
        pipeline.step(event);
        assert!(pipeline.queue_len() <= pipeline.capacity());
        steps += 1;
        assert!(steps < 10_000_000, "the pipeline did not finish");
    }
    steps
}

#[test]
fn queue_is_first_in_first_out() {
    let mut queue: BoundedQueue<i32> = BoundedQueue::new(3);
    assert!(queue.is_empty());
    assert_eq!(queue.try_send(10), Ok(()));
    assert_eq!(queue.try_send(20), Ok(()));
    assert_eq!(queue.try_send(30), Ok(()));
    assert_eq!(queue.len(), 3);
    assert!(queue.is_full());
    assert_eq!(queue.try_receive(), Received::Item(10));
    assert_eq!(queue.try_receive(), Received::Item(20));
    assert_eq!(queue.try_send(40), Ok(()));
    assert_eq!(queue.try_receive(), Received::Item(30));
    assert_eq!(queue.try_receive(), Received::Item(40));
    assert_eq!(queue.try_receive(), Received::Empty);
}

#[test]
fn queue_refuses_when_full_and_hands_the_item_back() {
    let mut queue: BoundedQueue<i32> = BoundedQueue::new(2);
    assert_eq!(queue.capacity(), 2);
    assert_eq!(queue.try_send(1), Ok(()));
    assert_eq!(queue.try_send(2), Ok(()));
    assert_eq!(queue.try_send(3), Err(Refused::Full(3)));
    assert_eq!(queue.len(), 2);
    assert_eq!(queue.try_receive(), Received::Item(1));
    assert_eq!(queue.try_send(3), Ok(()));
    assert_eq!(queue.len(), 2);
}

#[test]
fn queue_of_capacity_zero_accepts_nothing() {
    let mut queue: BoundedQueue<u8> = BoundedQueue::new(0);
    assert!(queue.is_full());
    assert_eq!(queue.try_send(7), Err(Refused::Full(7)));
    assert_eq!(queue.try_receive(), Received::Empty);
}

#[test]
fn closed_queue_drains_then_reports_drained() {
    let mut queue: BoundedQueue<i32> = BoundedQueue::new(4);
    assert_eq!(queue.try_send(1), Ok(()));
    assert_eq!(queue.try_send(2), Ok(()));
    assert!(!queue.is_closed());
    queue.close();
    assert!(queue.is_closed());
    assert_eq!(queue.try_send(3), Err(Refused::Closed(3)));
    assert_eq!(queue.try_receive(), Received::Item(1));
    assert_eq!(queue.try_receive(), Received::Item(2));
    assert_eq!(queue.try_receive(), Received::Drained);
    assert_eq!(queue.try_receive(), Received::Drained);
}

#[test]
fn shares_split_the_remainder_among_the_first_producers() {
    assert_eq!(share_len(10, 3, 0), 4);
    assert_eq!(share_len(10, 3, 1), 3);
    assert_eq!(share_len(10, 3, 2), 3);
    assert_eq!(share_range(10, 3, 0), (0, 4));
    assert_eq!(share_range(10, 3, 1), (4, 7));
    assert_eq!(share_range(10, 3, 2), (7, 10));
    assert_eq!(share_range(200, 2, 0), (0, 100));
    assert_eq!(share_range(200, 2, 1), (100, 200));
    assert_eq!(share_range(2, 5, 1), (1, 2));
    assert_eq!(share_range(2, 5, 4), (2, 2));
}

#[test]
fn shares_cover_every_item_once() {
    for total in 0..40usize {
        for producers in 1..9usize {
            let mut next = 0usize;
            let mut sum = 0usize;
            for id in 0..producers {
                let (start, end) = share_range(total, producers, id);
                assert_eq!(start, next);
                assert_eq!(end - start, share_len(total, producers, id));
                sum += share_len(total, producers, id);
                next = end;
            }
            assert_eq!(next, total);
            assert_eq!(sum, total);
        }
    }
}

#[test]
fn tags_carry_producer_and_index() {
    assert_eq!(tag_item(0, 0), 0);
    assert_eq!(tag_item(0, 17), 17);
    assert_eq!(tag_item(1, 5), 10_005);
    assert_eq!(tag_item(3, 99), 30_099);
    assert_ne!(tag_item(0, 0), SENTINEL);
}

#[test]
fn worker_stops_only_on_signal_or_drained_queue() {
    assert_eq!(worker_action(Received::Item(Message::Job(5))), WorkerAction::Process(5));
    assert_eq!(worker_action(Received::Item(Message::<i32>::Stop)), WorkerAction::Halt);
    assert_eq!(worker_action(Received::<Message<i32>>::Empty), WorkerAction::Wait);
    assert_eq!(worker_action(Received::<Message<i32>>::Drained), WorkerAction::Halt);
}

#[test]
fn sentinel_is_read_as_stop() {
    assert_eq!(classify_item(-1), Message::Stop);
    assert_eq!(classify_item(0), Message::Job(0));
    assert_eq!(classify_item(10_004), Message::Job(10_004));
    assert_eq!(classify_item(-2), Message::Job(-2));
}

#[test]
fn one_shutdown_signal_per_worker() {
    let signals: Vec<Message<u8>> = shutdown_signals(4);
    assert_eq!(signals.len(), 4);
    assert!(signals.iter().all(|signal| *signal == Message::Stop));
    let none: Vec<Message<u8>> = shutdown_signals(0);
    assert!(none.is_empty());
}

#[test]
fn aggregate_sums_and_reports_completeness() {
    assert_eq!(aggregate(&vec![1, 2, 3], 3), (6, true));
    assert_eq!(aggregate(&vec![1, 2, 3], 4), (6, false));
    assert_eq!(aggregate(&vec![], 0), (0, true));
    assert_eq!(aggregate(&vec![-5, 5, -7], 2), (-7, false));
}

#[test]
fn aggregate_does_not_overflow_at_the_edges() {
    let high = vec![i64::MAX, i64::MAX, i64::MAX];
    assert_eq!(aggregate(&high, 3), (3 * (i64::MAX as i128), true));
    let low = vec![i64::MIN, i64::MIN];
    assert_eq!(aggregate(&low, 2), (2 * (i64::MIN as i128), true));
}

#[test]
fn aggregate_is_order_independent() {
    let forward = vec![4, -9, 13, 0, 2, 77];
    let mut backward = forward.clone();
    backward.reverse();
    let rotated = vec![13, 0, 2, 77, 4, -9];
    assert_eq!(aggregate(&forward, 6).0, 87);
    assert_eq!(aggregate(&backward, 6).0, 87);
    assert_eq!(aggregate(&rotated, 6).0, 87);
}

#[test]
fn oracle_mismatch_is_reported() {
    assert!(matches_oracle(87, 87));
    assert!(!matches_oracle(86, 87));
}

#[test]
fn counters_flag_an_incomplete_run() {
    let complete = ProducerConsumerResult::from_counts(200, 200, 2, 200, 2);
    assert_eq!(
        complete,
        ProducerConsumerResult { produced: 200, consumed: 200, sentinels: 2, deadlock_detected: false }
    );
    assert!(ProducerConsumerResult::from_counts(199, 200, 2, 200, 2).deadlock_detected);
    assert!(ProducerConsumerResult::from_counts(200, 199, 2, 200, 2).deadlock_detected);
    assert!(ProducerConsumerResult::from_counts(200, 200, 1, 200, 2).deadlock_detected);
    assert!(ProducerConsumerResult::from_counts(200, 200, 3, 200, 2).deadlock_detected);
}

#[test]
fn pipeline_steps_follow_the_protocol() {
    let mut pipeline = Pipeline::new(vec![10, 20, 30], 1, 1, 2);
    assert_eq!(pipeline.step(Event::Receive(0)), Progress::Blocked);
    assert_eq!(pipeline.step(Event::Deliver(0)), Progress::Ignored);
    assert_eq!(pipeline.step(Event::Signal), Progress::Blocked);
    assert_eq!(pipeline.step(Event::Produce(1)), Progress::Ignored);
    assert_eq!(pipeline.step(Event::Produce(0)), Progress::Advanced);
    assert_eq!(pipeline.step(Event::Produce(0)), Progress::Advanced);
    assert_eq!(pipeline.queue_len(), 2);
    assert_eq!(pipeline.step(Event::Produce(0)), Progress::Blocked);
    assert_eq!(pipeline.step(Event::Receive(0)), Progress::Advanced);
    assert_eq!(pipeline.worker(0), WorkerState::Busy(0));
    assert_eq!(pipeline.step(Event::Receive(0)), Progress::Ignored);
    assert_eq!(pipeline.step(Event::Deliver(0)), Progress::Advanced);
    assert_eq!(pipeline.worker(0), WorkerState::Idle);
    assert_eq!(pipeline.outcome(), (10, false));
    assert_eq!(pipeline.step(Event::Produce(0)), Progress::Advanced);
    assert_eq!(pipeline.step(Event::Produce(0)), Progress::Ignored);
    assert!(pipeline.producers_finished());
    assert_eq!(pipeline.step(Event::Signal), Progress::Blocked);
    assert_eq!(pipeline.step(Event::Receive(0)), Progress::Advanced);
    assert_eq!(pipeline.step(Event::Signal), Progress::Advanced);
    assert_eq!(pipeline.step(Event::Signal), Progress::Ignored);
    assert_eq!(pipeline.step(Event::Deliver(0)), Progress::Advanced);
    assert_eq!(pipeline.step(Event::Receive(0)), Progress::Advanced);
    assert_eq!(pipeline.step(Event::Deliver(0)), Progress::Advanced);
    assert!(!pipeline.is_finished());
    assert_eq!(pipeline.step(Event::Receive(0)), Progress::Advanced);
    assert_eq!(pipeline.worker(0), WorkerState::Stopped);
    assert!(pipeline.is_finished());
    assert_eq!(pipeline.step(Event::Receive(0)), Progress::Ignored);
    assert_eq!(pipeline.outcome(), (60, true));
    assert_eq!(pipeline.processed(), &vec![0, 1, 2]);
    assert_eq!(pipeline.stops_observed(0), 1);
}

#[test]
fn pipeline_runs_a_schedule() {
    let mut pipeline = Pipeline::new(vec![5, -3], 2, 2, 1);
    let schedule = vec![
        Event::Produce(1),
        Event::Produce(0),
        Event::Receive(1),
        Event::Produce(0),
        Event::Receive(0),
        Event::Deliver(0),
        Event::Deliver(1),
        Event::Signal,
        Event::Receive(0),
        Event::Signal,
        Event::Receive(1),
    ];
    let advanced = pipeline.run(&schedule);
    assert_eq!(advanced, 10);
    assert!(pipeline.is_finished());
    assert_eq!(pipeline.outcome(), (2, true));
    assert_eq!(pipeline.processed(), &vec![0, 1]);
}

#[test]
fn total_is_the_same_for_every_interleaving() {
    let values: Vec<i64> = (0..57).map(|j| (j * j) as i64 - 400).collect();
    let reference: i128 = values.iter().map(|&value| value as i128).sum();
    for seed in 1..60u64 {
        let producers = 1 + (seed % 4) as usize;
        let workers = 1 + (seed % 5) as usize;
        let capacity = 1 + (seed % 7) as usize;
        let mut pipeline = Pipeline::new(values.clone(), producers, workers, capacity);
        drive(&mut pipeline, producers, workers, seed);
        assert_eq!(pipeline.outcome(), (reference, true));
    }
}

#[test]
fn every_job_is_executed_exactly_once() {
    for seed in 1..40u64 {
        let jobs = (seed % 23) as usize;
        let values: Vec<i64> = (0..jobs).map(|j| j as i64).collect();
        let producers = 1 + (seed % 3) as usize;
        let workers = 1 + (seed % 4) as usize;
        let mut pipeline = Pipeline::new(values, producers, workers, 3);
        drive(&mut pipeline, producers, workers, seed * 7919);
        let mut seen = pipeline.processed().clone();
        assert_eq!(seen.len(), jobs);
        seen.sort();
        let all: Vec<usize> = (0..jobs).collect();
        assert_eq!(seen, all);
        let summary = pipeline.summary();
        assert_eq!(summary.produced, jobs);
        assert_eq!(summary.consumed, jobs);
    }
}

#[test]
fn every_worker_takes_exactly_one_signal() {
    for seed in 1..40u64 {
        let workers = 1 + (seed % 8) as usize;
        let mut pipeline = Pipeline::new(vec![1; 30], 2, workers, 4);
        drive(&mut pipeline, 2, workers, seed + 1000);
        for worker in 0..workers {
            assert_eq!(pipeline.stops_observed(worker), 1);
            assert_eq!(pipeline.worker(worker), WorkerState::Stopped);
            assert_eq!(pipeline.step(Event::Receive(worker)), Progress::Ignored);
        }
        assert_eq!(pipeline.summary().sentinels, workers);
        assert_eq!(pipeline.queue_len(), 0);
        assert_eq!(pipeline.step(Event::Signal), Progress::Ignored);
    }
}

#[test]
fn two_producers_two_hundred_items_capacity_thirty_two() {
    for workers in [1usize, 2, 3] {
        let mut pipeline = Pipeline::new(vec![1; 200], 2, workers, 32);
        drive(&mut pipeline, 2, workers, 0x5EED);
        let summary = pipeline.summary();
        assert_eq!(summary.produced, 200);
        assert_eq!(summary.consumed, 200);
        assert_eq!(summary.sentinels, workers);
        assert!(!summary.deadlock_detected);
    }
}

#[test]
fn summary_flags_a_run_that_is_not_over() {
    let mut pipeline = Pipeline::new(vec![1; 4], 2, 2, 8);
    assert!(pipeline.summary().deadlock_detected);
    pipeline.step(Event::Produce(0));
    pipeline.step(Event::Produce(1));
    pipeline.step(Event::Receive(0));
    pipeline.step(Event::Deliver(0));
    let summary = pipeline.summary();
    assert_eq!(summary.produced, 2);
    assert_eq!(summary.consumed, 1);
    assert_eq!(summary.sentinels, 0);
    assert!(summary.deadlock_detected);
}

#[test]
fn four_hundred_blocks_give_the_same_total_for_every_pool_size() {
    let data = generate_data(400 * 1_000);
    let tasks = build_tasks(400, 1_000);
    let baseline = sequential_process(&data, &tasks);
    assert_eq!(baseline.total_sum, -200_000);
    let values = block_values(&data, &tasks);
    assert_eq!(values.len(), 400);
    for workers in [2usize, 4, 8] {
        let mut pipeline = Pipeline::new(values.clone(), 1, workers, 16);
        drive(&mut pipeline, 1, workers, 42 + workers as u64);
        assert_eq!(pipeline.outcome(), (-200_000, true));
    }
}

#[test]
fn stuck_without_capacity() {
    let mut pipeline = Pipeline::new(vec![1, 2], 1, 1, 0);
    assert_eq!(pipeline.step(Event::Produce(0)), Progress::Blocked);
    assert_eq!(pipeline.step(Event::Receive(0)), Progress::Blocked);
    assert_eq!(pipeline.step(Event::Signal), Progress::Blocked);
    assert!(!pipeline.is_finished());
}

#[test]
fn no_jobs_still_shuts_the_pool_down() {
    let mut pipeline = Pipeline::new(Vec::new(), 3, 2, 1);
    assert!(pipeline.producers_finished());
    drive(&mut pipeline, 3, 2, 9);
    assert_eq!(pipeline.outcome(), (0, true));
    assert_eq!(pipeline.summary().sentinels, 2);
}

#[test]
fn fair_schedule_runs_to_completion() {
    for (jobs, producers, workers, capacity) in
        [(0usize, 1usize, 1usize, 1usize), (1, 1, 1, 1), (7, 3, 2, 1), (50, 4, 8, 3), (200, 2, 2, 32)]
    {
        let values: Vec<i64> = (0..jobs).map(|j| 3 * j as i64 - 11).collect();
        let reference: i128 = values.iter().map(|&value| value as i128).sum();
        let mut pipeline = Pipeline::new(values, producers, workers, capacity);
        pipeline.run_to_completion();
        assert!(pipeline.is_finished());
        assert_eq!(pipeline.outcome(), (reference, true));
        assert_eq!(pipeline.queue_len(), 0);
        let summary = pipeline.summary();
        assert_eq!(
            summary,
            ProducerConsumerResult {
                produced: jobs,
                consumed: jobs,
                sentinels: workers,
                deadlock_detected: false
            }
        );
    }
}

#[test]
fn fair_and_random_schedules_agree() {
    let values: Vec<i64> = (0..33).map(|j| (j % 7) as i64 * 1_000_003 - 5).collect();
    let mut fair = Pipeline::new(values.clone(), 3, 4, 2);
    fair.run_to_completion();
    let mut random = Pipeline::new(values, 3, 4, 2);
    drive(&mut random, 3, 4, 0xC0FFEE);
    assert_eq!(fair.outcome(), random.outcome());
}

#[test]
fn run_counts_the_events_that_moved_an_actor() {
    let mut pipeline = Pipeline::new(vec![1, 1], 1, 1, 1);
    let schedule = vec![
        Event::Deliver(0),
        Event::Produce(0),
        Event::Produce(0),
        Event::Produce(7),
        Event::Receive(0),
        Event::Receive(0),
        Event::Signal,
    ];
    assert_eq!(pipeline.run(&schedule), 2);
    assert_eq!(pipeline.run(&Vec::new()), 0);
    assert_eq!(pipeline.worker(0), WorkerState::Busy(0));
}

#[test]
fn join_reports_the_first_failed_worker() {
    let stopped = WorkerExit::Stopped;
    let failed = WorkerExit::Failed;
    assert_eq!(join_report(&vec![stopped, stopped, stopped]), Ok(()));
    assert_eq!(join_report(&Vec::new()), Ok(()));
    assert_eq!(join_report(&vec![failed]), Err(PoolFailure::WorkerFailed(0)));
    assert_eq!(
        join_report(&vec![stopped, stopped, failed, stopped, failed]),
        Err(PoolFailure::WorkerFailed(2))
    );
}

#[test]
fn closing_the_queue_releases_the_workers() {
    let mut pipeline = Pipeline::new(vec![4, 5, 6], 1, 2, 4);
    assert!(!pipeline.is_closed());
    assert_eq!(pipeline.step(Event::Close), Progress::Blocked);
    assert_eq!(pipeline.step(Event::Produce(0)), Progress::Advanced);
    assert_eq!(pipeline.step(Event::Produce(0)), Progress::Advanced);
    assert_eq!(pipeline.step(Event::Produce(0)), Progress::Advanced);
    assert_eq!(pipeline.step(Event::Close), Progress::Advanced);
    assert!(pipeline.is_closed());
    assert_eq!(pipeline.step(Event::Close), Progress::Ignored);
    assert_eq!(pipeline.step(Event::Signal), Progress::Ignored);
    assert_eq!(pipeline.queue_len(), 3);
    assert_eq!(pipeline.step(Event::Receive(0)), Progress::Advanced);
    assert_eq!(pipeline.step(Event::Receive(1)), Progress::Advanced);
    assert_eq!(pipeline.step(Event::Deliver(1)), Progress::Advanced);
    assert_eq!(pipeline.step(Event::Receive(1)), Progress::Advanced);
    assert_eq!(pipeline.worker(1), WorkerState::Busy(2));
    assert_eq!(pipeline.step(Event::Deliver(0)), Progress::Advanced);
    assert_eq!(pipeline.step(Event::Receive(0)), Progress::Advanced);
    assert_eq!(pipeline.worker(0), WorkerState::Released);
    assert!(!pipeline.is_finished());
    assert_eq!(pipeline.step(Event::Deliver(1)), Progress::Advanced);
    assert_eq!(pipeline.step(Event::Receive(1)), Progress::Advanced);
    assert!(pipeline.is_finished());
    assert_eq!(pipeline.outcome(), (15, true));
    assert_eq!(pipeline.stops_observed(0), 1);
    assert_eq!(pipeline.stops_observed(1), 1);
    let summary = pipeline.summary();
    assert_eq!(summary.sentinels, 2);
    assert!(!summary.deadlock_detected);
}

#[test]
fn signals_and_closing_can_be_mixed() {
    for seed in 1..50u64 {
        let producers = 1 + (seed % 3) as usize;
        let workers = 1 + (seed % 6) as usize;
        let jobs = (seed % 19) as usize;
        let values: Vec<i64> = (0..jobs).map(|j| 10 - j as i64).collect();
        let reference: i128 = values.iter().map(|&value| value as i128).sum();
        let mut pipeline = Pipeline::new(values, producers, workers, 2);
        let mut generator = XorShift64::new(seed);
        let mut steps = 0usize;
        while !pipeline.is_finished() {
            let draw = generator.next_u64();
            let actor = ((draw >> 8) % 64) as usize;
            let event = match draw % 5 {
                0 => Event::Produce(actor % producers),
                1 => Event::Signal,
                2 => Event::Receive(actor % workers),
                3 => Event::Deliver(actor % workers),
                _ => Event::Close,
            };
            pipeline.step(event);
            assert!(pipeline.queue_len() <= pipeline.capacity());
            steps += 1;
            assert!(steps < 1_000_000);
        }
        assert_eq!(pipeline.outcome(), (reference, true));
        assert_eq!(pipeline.queue_len(), 0);
        let summary = pipeline.summary();
        assert_eq!(summary.sentinels, workers);
        assert_eq!(summary.produced, jobs);
        assert_eq!(summary.consumed, jobs);
        for worker in 0..workers {
            assert_eq!(pipeline.stops_observed(worker), 1);
        }
    }
}

#[test]
fn closed_pipeline_still_runs_to_completion() {
    let mut pipeline = Pipeline::new(vec![1, 2, 3, 4], 2, 3, 1);
    pipeline.step(Event::Produce(0));
    pipeline.step(Event::Receive(2));
    pipeline.step(Event::Produce(0));
    pipeline.step(Event::Receive(1));
    pipeline.step(Event::Produce(1));
    pipeline.step(Event::Receive(0));
    pipeline.step(Event::Produce(1));
    assert!(pipeline.producers_finished());
    assert_eq!(pipeline.step(Event::Close), Progress::Advanced);
    pipeline.run_to_completion();
    assert!(pipeline.is_finished());
    assert_eq!(pipeline.outcome(), (10, true));
    assert_eq!(pipeline.summary().sentinels, 3);
}
