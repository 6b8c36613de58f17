use std::collections::HashMap;
use syncbench::accounts::{
    account_key, apply_write, balance_of, expected_final_sum, initial_db, read_window,
    sum_read_acc, table_sum, writer_delta, RunMetrics, ThreadStats, ACCOUNT_KEYS, OPS_PER_WRITER,
    WRITERS,
};
use syncbench::barrier::{observes_violation, sequential_two_phase, PhaseBarrier};
use syncbench::blocks::{
    block_sum, block_values, build_tasks, generate_data, sequential_process, ExecutionResult,
};
use syncbench::checks::{hello_message, outputs_agree, outputs_match, sequential_indices};
use syncbench::counter::{
    expected_total, locked_counter, lost_updates, sequential_counter, thread_contribution,
    Granularity, LocalBatch, BLOCK_SIZE, ITERATIONS_PER_THREAD,
};
use syncbench::sampling::{combine_counts, workloads, SampleCounts};
use syncbench::vector_sum::{
    arithmetic_series_sum, chunk_sum, generate_vector, plan_chunks, sequential_sum,
};

#[test]
fn dataset_follows_its_pattern() {
    let data = generate_data(40);
    assert_eq!(data.len(), 40);
    assert_eq!(data[0], -493);
    assert_eq!(data[1], -462);
    assert_eq!(data[32], 499);
    assert_eq!(data[33], -470);
    for (index, value) in data.iter().enumerate() {
        assert_eq!(*value, ((index as i32 * 31 + 7) % 1_000) - 500);
        assert!(-500 <= *value && *value <= 499);
    }
    assert!(generate_data(0).is_empty());
}

#[test]
fn tasks_are_consecutive_blocks() {
    assert_eq!(build_tasks(3, 4), vec![(0, 4), (4, 8), (8, 12)]);
    assert_eq!(build_tasks(2, 0), vec![(0, 0), (0, 0)]);
    assert!(build_tasks(0, 1_000).is_empty());
    let tasks = build_tasks(400, 1_000);
    assert_eq!(tasks.len(), 400);
    assert_eq!(tasks[399], (399_000, 400_000));
}

#[test]
fn block_sum_adds_a_range() {
    let data = vec![3, -1, 4, -1, 5, -9, 2, 6];
    assert_eq!(block_sum(&data, 0, 8), 9);
    assert_eq!(block_sum(&data, 2, 5), 8);
    assert_eq!(block_sum(&data, 5, 5), 0);
    assert_eq!(block_sum(&vec![i32::MAX, i32::MAX], 0, 2), 2 * i32::MAX as i64);
    assert_eq!(block_sum(&vec![i32::MIN, i32::MIN], 0, 2), 2 * i32::MIN as i64);
}

#[test]
fn sequential_reference_adds_the_block_sums() {
    let data = vec![3, -1, 4, -1, 5, -9, 2, 6];
    let tasks = vec![(0, 2), (2, 4), (4, 8)];
    assert_eq!(sequential_process(&data, &tasks), ExecutionResult { total_sum: 9 });
    assert_eq!(block_values(&data, &tasks), vec![2, 3, 4]);
    let overlapping = vec![(0, 8), (0, 8), (6, 7)];
    assert_eq!(sequential_process(&data, &overlapping).total_sum, 20);
    assert_eq!(sequential_process(&data, &Vec::new()).total_sum, 0);
}

#[test]
fn every_thousand_elements_sum_to_minus_five_hundred() {
    let data = generate_data(5_000);
    let tasks = build_tasks(5, 1_000);
    assert_eq!(block_values(&data, &tasks), vec![-500; 5]);
    assert_eq!(sequential_process(&data, &tasks).total_sum, -2_500);
}

#[test]
fn counting_vector_and_its_closed_formula() {
    assert_eq!(generate_vector(5), vec![0, 1, 2, 3, 4]);
    assert!(generate_vector(0).is_empty());
    assert_eq!(arithmetic_series_sum(4), 10);
    assert_eq!(arithmetic_series_sum(0), 0);
    assert_eq!(arithmetic_series_sum(-1), 0);
    assert_eq!(arithmetic_series_sum(-7), 0);
    assert_eq!(arithmetic_series_sum(19_999_999), 199_999_990_000_000);
    assert_eq!(arithmetic_series_sum(3_037_000_498), 4611686013944624251);
}

#[test]
fn sequential_sum_meets_the_oracle() {
    for len in [0usize, 1, 2, 10, 1_000, 65_537] {
        let data = generate_vector(len);
        assert_eq!(sequential_sum(&data), arithmetic_series_sum(len as i64 - 1));
    }
    assert_eq!(sequential_sum(&vec![5, -7, 9]), 7);
    assert_eq!(chunk_sum(&vec![5, -7, 9], 1, 3), 2);
    assert_eq!(chunk_sum(&vec![5, -7, 9], 2, 2), 0);
}

#[test]
fn chunks_are_consecutive_and_rounded_up() {
    assert_eq!(plan_chunks(10, 4), vec![(0, 3), (3, 6), (6, 9), (9, 10)]);
    assert_eq!(plan_chunks(10, 3), vec![(0, 4), (4, 8), (8, 10)]);
    assert_eq!(plan_chunks(10, 2), vec![(0, 5), (5, 10)]);
    assert_eq!(plan_chunks(10, 1), vec![(0, 10)]);
    assert_eq!(plan_chunks(10, 0), vec![(0, 10)]);
    assert_eq!(plan_chunks(3, 8), vec![(0, 1), (1, 2), (2, 3)]);
    assert_eq!(plan_chunks(0, 4), vec![(0, 0)]);
    assert_eq!(plan_chunks(1, 4), vec![(0, 1)]);
    assert_eq!(plan_chunks(9, 6), vec![(0, 2), (2, 4), (4, 6), (6, 8), (8, 9)]);
    assert_eq!(plan_chunks(usize::MAX, 2), vec![(0, usize::MAX / 2 + 1), (usize::MAX / 2 + 1, usize::MAX)]);
}

#[test]
fn chunk_sums_add_up_to_the_whole() {
    for len in [0usize, 1, 7, 100, 1_001] {
        let data = generate_vector(len);
        let whole = sequential_sum(&data);
        for threads in [1usize, 2, 4, 8] {
            let chunks = plan_chunks(len, threads);
            assert!(chunks.len() <= threads.max(1));
            let partials: Vec<i64> =
                chunks.iter().map(|&(start, end)| chunk_sum(&data, start, end)).collect();
            assert_eq!(sequential_sum(&partials), whole);
        }
    }
}

#[test]
fn account_table_starts_from_its_formula() {
    let db = initial_db();
    assert_eq!(db.len(), ACCOUNT_KEYS);
    assert_eq!(db[&0], -50);
    assert_eq!(db[&1], -47);
    assert_eq!(db[&63], 139);
    assert_eq!(balance_of(&db, 17), 1);
    assert_eq!(balance_of(&db, 64), 0);
    assert_eq!(table_sum(&db), 2_848);
}

#[test]
fn expected_final_sum_is_initial_plus_credits() {
    assert_eq!(expected_final_sum(), 11_848);
    assert_eq!(writer_delta(0), 1);
    assert_eq!(writer_delta(1), 2);
    assert_eq!(writer_delta(41), 42);
}

#[test]
fn credits_in_any_order_reach_the_expected_total() {
    let mut forward = initial_db();
    for writer in 0..WRITERS {
        for iter in 0..OPS_PER_WRITER {
            let key = account_key(writer, iter, 11);
            apply_write(&mut forward, key, writer_delta(writer));
        }
    }
    assert_eq!(table_sum(&forward), expected_final_sum() as i128);
    let mut interleaved = initial_db();
    for iter in (0..OPS_PER_WRITER).rev() {
        for writer in (0..WRITERS).rev() {
            let key = account_key(writer, iter, 17);
            apply_write(&mut interleaved, key, writer_delta(writer));
        }
    }
    assert_eq!(table_sum(&interleaved), 11_848);
}

#[test]
fn account_keys_wrap_around() {
    assert_eq!(account_key(1, 5, 7), 12);
    assert_eq!(account_key(0, 64, 7), 0);
    assert_eq!(account_key(4, 4_999, 13), ((4 * 13 + 4_999) % 64) as u32);
    assert_eq!(account_key(1, 2_999, 17), 8);
}

#[test]
fn read_looks_at_four_accounts() {
    let db = initial_db();
    assert_eq!(read_window(&db, 0), -50 - 47 - 44 - 41);
    assert_eq!(read_window(&db, 62), 136 + 139 - 50 - 47);
    let empty: HashMap<u32, i64> = HashMap::new();
    assert_eq!(read_window(&empty, 10), 0);
}

#[test]
fn write_creates_a_missing_account() {
    let mut db: HashMap<u32, i64> = HashMap::new();
    apply_write(&mut db, 5, 3);
    apply_write(&mut db, 5, 4);
    assert_eq!(db.len(), 1);
    assert_eq!(db[&5], 7);
    assert_eq!(table_sum(&db), 7);
}

#[test]
fn metrics_absorb_thread_stats() {
    let mut metrics = RunMetrics::default();
    metrics.absorb(ThreadStats { reads: 5_000, writes: 0, observed_sum: -17 });
    metrics.absorb(ThreadStats { reads: 0, writes: 3_000, observed_sum: 0 });
    metrics.absorb(ThreadStats { reads: 5_000, writes: 0, observed_sum: 40 });
    assert_eq!(
        metrics,
        RunMetrics { final_sum: 0, total_reads: 10_000, total_writes: 3_000, read_accumulator: 23 }
    );
    let runs = vec![metrics, RunMetrics { read_accumulator: -3, ..RunMetrics::default() }, metrics];
    assert_eq!(sum_read_acc(&runs), 43);
    assert_eq!(sum_read_acc(&runs[1..]), 20);
    assert_eq!(sum_read_acc(&[]), 0);
}

#[test]
fn lock_granularity_loses_no_increment() {
    assert_eq!(thread_contribution(Granularity::EveryIncrement, 10), (10, 10));
    assert_eq!(thread_contribution(Granularity::Blocks(3), 10), (10, 4));
    assert_eq!(thread_contribution(Granularity::Blocks(5), 10), (10, 2));
    assert_eq!(thread_contribution(Granularity::Blocks(1), 10), (10, 10));
    assert_eq!(thread_contribution(Granularity::Blocks(0), 10), (10, 1));
    assert_eq!(thread_contribution(Granularity::Blocks(0), 0), (0, 0));
    assert_eq!(thread_contribution(Granularity::Blocks(50), 10), (10, 1));
    assert_eq!(thread_contribution(Granularity::Once, 10), (10, 1));
    assert_eq!(thread_contribution(Granularity::Once, 0), (0, 1));
    assert_eq!(thread_contribution(Granularity::EveryIncrement, 0), (0, 0));
    assert_eq!(
        thread_contribution(Granularity::Blocks(BLOCK_SIZE), ITERATIONS_PER_THREAD),
        (1_000_000, 1_000)
    );
}

#[test]
fn batch_flushes_when_it_is_full() {
    let mut batch = LocalBatch::new(Granularity::Blocks(3));
    assert_eq!(batch.record(), None);
    assert_eq!(batch.record(), None);
    assert_eq!(batch.record(), Some(3));
    assert_eq!(batch.record(), None);
    assert_eq!(batch.finish(), Some(1));
    assert_eq!(batch.finish(), None);
    let mut every = LocalBatch::new(Granularity::EveryIncrement);
    assert_eq!(every.record(), Some(1));
    assert_eq!(every.finish(), None);
    let mut once = LocalBatch::new(Granularity::Once);
    assert_eq!(once.record(), None);
    assert_eq!(once.record(), None);
    assert_eq!(once.finish(), Some(2));
}

#[test]
fn counters_agree_with_the_product() {
    assert_eq!(sequential_counter(3, 5), 15);
    assert_eq!(sequential_counter(0, 5), 0);
    assert_eq!(sequential_counter(4, 0), 0);
    assert_eq!(locked_counter(Granularity::EveryIncrement, 3, 5), 15);
    assert_eq!(locked_counter(Granularity::Blocks(2), 3, 5), 15);
    assert_eq!(locked_counter(Granularity::Once, 3, 5), 15);
    assert_eq!(expected_total(4, 1_000_000), Some(4_000_000));
    assert_eq!(expected_total(usize::MAX, 2), None);
    assert_eq!(lost_updates(4_000_000, 3_999_000), 1_000);
    assert_eq!(lost_updates(10, 10), 0);
    assert_eq!(lost_updates(10, 11), 0);
}

#[test]
fn barrier_opens_with_the_last_arrival() {
    let mut barrier = PhaseBarrier::new(3);
    assert!(!barrier.is_open());
    assert!(!barrier.arrive());
    assert!(!barrier.arrive());
    assert!(!barrier.is_open());
    assert!(barrier.arrive());
    assert!(barrier.is_open());
    assert!(observes_violation(2, 3));
    assert!(!observes_violation(3, 3));
    assert!(sequential_two_phase(4));
    assert!(sequential_two_phase(0));
}

#[test]
fn sample_sizes_scale_and_saturate() {
    assert_eq!(workloads(200_000), vec![200_000, 1_000_000, 5_000_000]);
    assert_eq!(workloads(0), vec![0, 0, 0]);
    assert_eq!(workloads(usize::MAX / 4), vec![usize::MAX / 4, usize::MAX, usize::MAX]);
}

#[test]
fn sample_counts_add_up() {
    let parts = vec![
        SampleCounts { total_samples: 100, inside_circle: 80 },
        SampleCounts { total_samples: 100, inside_circle: 77 },
        SampleCounts { total_samples: 50, inside_circle: 39 },
    ];
    assert_eq!(
        combine_counts(&parts),
        Some(SampleCounts { total_samples: 250, inside_circle: 196 })
    );
    assert_eq!(combine_counts(&Vec::new()), Some(SampleCounts::default()));
    let huge = vec![
        SampleCounts { total_samples: usize::MAX, inside_circle: 1 },
        SampleCounts { total_samples: 1, inside_circle: 1 },
    ];
    assert_eq!(combine_counts(&huge), None);
}

#[test]
fn outputs_are_compared_after_the_warmup() {
    assert!(outputs_match(&vec![99, 7, 7, 7, 7], 7));
    assert!(!outputs_match(&vec![7, 7, 7, 8, 7], 7));
    assert!(outputs_match(&vec![3], 7));
    assert!(outputs_match(&Vec::new(), 7));
    assert!(outputs_agree(&vec![0, 5, 5], &vec![9, 5, 5]));
    assert!(!outputs_agree(&vec![0, 5, 4], &vec![0, 5, 5]));
    assert!(outputs_agree(&vec![0, 5, 4], &vec![0, 5]));
}

#[test]
fn indices_and_greeting() {
    assert_eq!(sequential_indices(4), vec![0, 1, 2, 3]);
    assert!(sequential_indices(0).is_empty());
    assert_eq!(hello_message(), "Hello from thread!");
}
