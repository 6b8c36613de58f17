//! The measurement harness that every scenario shares.
//!
//! A workload is run a fixed number of times, one run after the other, and
//! each run is timed. The first run is a warm-up: its duration is recorded but
//! does not enter the mean.

use std::time::Duration;
use std::time::Instant;
use vstd::prelude::*;

verus! {

/// Whether the run with this index is the warm-up run, which scenarios use to
/// print their diagnostics once.
pub fn is_warmup(run: usize) -> (warmup: bool)
    ensures
        warmup == (run == 0),
{
    run == 0
}

/// The least number of runs for which the mean says anything.
pub const MIN_RUNS: usize = 3;

/// The number of runs that the scenarios use.
pub const RUNS: usize = 5;

/// A point in time, as the monotonic clock of the standard library gives it.
#[verifier::external_type_specification]
#[verifier::external_body]
pub struct ExInstant(Instant);

/// Calls `Instant::now`. Nothing is claimed of the point in time it returns.
#[verifier::external_body]
fn clock_now() -> (now: Instant) {
    Instant::now()
}

/// Calls `Instant::elapsed`. Nothing is claimed of the duration it returns.
#[verifier::external_body]
fn clock_elapsed(since: &Instant) -> (elapsed: Duration) {
    since.elapsed()
}

/// Calls `Duration::as_nanos`. Nothing is claimed of the number it returns.
#[verifier::external_body]
fn whole_nanos(duration: &Duration) -> (nanos: u128) {
    duration.as_nanos()
}

/// The sum of a sequence of durations.
pub open spec fn nanos_sum(durations: Seq<u64>) -> nat
    decreases durations.len(),
{
    if durations.len() == 0 {
        0
    } else {
        nanos_sum(durations.drop_last()) + durations.last() as nat
    }
}

/// The durations of the measured runs: all but the first.
pub open spec fn after_warmup(durations: Seq<u64>) -> Seq<u64> {
    if durations.len() == 0 {
        durations
    } else {
        durations.skip(1)
    }
}

/// The mean of all durations but the first, rounded down to whole
/// nanoseconds.
pub open spec fn mean_after_warmup(durations: Seq<u64>) -> nat
    recommends
        durations.len() >= 2,
{
    nanos_sum(after_warmup(durations)) / ((durations.len() - 1) as nat)
}

/// A duration in nanoseconds as the harness records it: anything beyond the
/// 64-bit range (some 584 years) is recorded as the largest 64-bit value.
pub open spec fn clamped(nanos: u128) -> u64 {
    if nanos > u64::MAX {
        u64::MAX
    } else {
        nanos as u64
    }
}

/// Narrows a nanosecond count to 64 bits, saturating.
pub fn clamp_nanos(nanos: u128) -> (recorded: u64)
    ensures
        recorded == clamped(nanos),
{
    if nanos > u64::MAX as u128 {
        u64::MAX
    } else {
        nanos as u64
    }
}

/// A sum of `n` durations is at most `n` times the largest duration.
pub proof fn lemma_nanos_sum_bound(durations: Seq<u64>)
    ensures
        nanos_sum(durations) <= durations.len() * (u64::MAX as nat),
    decreases durations.len(),
{
    let n = durations.len() as int;
    if n > 0 {
        lemma_nanos_sum_bound(durations.drop_last());
        assert((n - 1) * (u64::MAX as int) + (u64::MAX as int) == n * (u64::MAX as int))
            by (nonlinear_arith);
    } else {
        assert(0 * (u64::MAX as int) == 0) by (nonlinear_arith);
    }
}

/// The warm-up run does not enter the mean: whatever the first duration is
/// replaced by, the total and the mean of the measured runs stay the same.
pub proof fn lemma_warmup_excluded(durations: Seq<u64>, other: u64)
    requires
        durations.len() >= 1,
    ensures
        after_warmup(durations.update(0, other)) == after_warmup(durations),
        mean_after_warmup(durations.update(0, other)) == mean_after_warmup(durations),
{
    assert(durations.update(0, other).skip(1) =~= durations.skip(1));
}

/// The total duration of the measured runs: of all runs but the first.
pub fn sum_of_measured(durations: &Vec<u64>) -> (sum: u128)
    ensures
        sum == nanos_sum(after_warmup(durations@)),
{
    if durations.len() == 0 {
        return 0;
    }
    let ghost measured = durations@.skip(1);
    let mut sum: u128 = 0;
    let mut i: usize = 1;
    assert(measured.take(0) =~= Seq::<u64>::empty());
    while i < durations.len()
        invariant
            1 <= i <= durations@.len(),
            measured == durations@.skip(1),
            sum == nanos_sum(measured.take(i - 1)),
        decreases durations@.len() - i,
    {
        proof {
            let upto = measured.take(i as int);
            assert(upto.drop_last() =~= measured.take(i - 1));
            assert(upto.last() == durations@[i as int]);
            lemma_nanos_sum_bound(measured.take(i - 1));
            lemma_partial_sum_fits(i - 1, sum as int);
        }
        sum = sum + durations[i] as u128;
        i += 1;
    }
    assert(measured.take(i - 1) =~= measured);
    sum
}

/// The mean of the measured runs: of all durations but the first.
pub fn mean_of_measured(durations: &Vec<u64>) -> (mean: u64)
    requires
        durations@.len() >= 2,
    ensures
        mean == mean_after_warmup(durations@),
{
    let sum: u128 = sum_of_measured(durations);
    let count: u128 = (durations.len() - 1) as u128;
    proof {
        lemma_nanos_sum_bound(after_warmup(durations@));
        lemma_mean_fits(sum as int, count as int);
    }
    (sum / count) as u64
}

proof fn lemma_partial_sum_fits(taken: int, sum: int)
    requires
        0 <= taken < 0xffff_ffff_ffff_ffff,
        0 <= sum <= taken * 0xffff_ffff_ffff_ffff,
    ensures
        sum + 0xffff_ffff_ffff_ffff <= u128::MAX,
{
    assert(taken * 0xffff_ffff_ffff_ffff <= 0xffff_ffff_ffff_fffe * 0xffff_ffff_ffff_ffff)
        by (nonlinear_arith)
        requires
            0 <= taken <= 0xffff_ffff_ffff_fffe,
    ;
}

proof fn lemma_mean_fits(sum: int, count: int)
    requires
        count > 0,
        0 <= sum <= count * 0xffff_ffff_ffff_ffff,
    ensures
        0 <= sum / count <= 0xffff_ffff_ffff_ffff,
{
    assert(0 <= sum / count <= 0xffff_ffff_ffff_ffff) by (nonlinear_arith)
        requires
            count > 0,
            0 <= sum <= count * 0xffff_ffff_ffff_ffff,
    ;
}

/// Runs `job` once per run index `0..job_count`, in order, and times each
/// call. Returns the mean duration of the runs after the warm-up, in whole
/// nanoseconds, then the duration of every run, then the output of every run,
/// the warm-up included in both.
pub fn measure_runs<T, F: Fn(usize) -> T>(job_count: usize, job: F) -> (report: (
    u64,
    Vec<u64>,
    Vec<T>,
))
    requires
        job_count >= MIN_RUNS,
        forall|run: usize| run < job_count ==> call_requires(job, (run,)),
    ensures
        report.1@.len() == job_count,
        report.2@.len() == job_count,
        forall|run: usize|
            run < job_count ==> call_ensures(job, (run,), #[trigger] report.2@[run as int]),
        report.0 == mean_after_warmup(report.1@),
{
    let mut durations: Vec<u64> = Vec::new();
    let mut outputs: Vec<T> = Vec::new();
    let mut run: usize = 0;
    while run < job_count
        invariant
            run <= job_count,
            durations@.len() == run,
            outputs@.len() == run,
            forall|r: usize| r < job_count ==> call_requires(job, (r,)),
            forall|r: usize| r < run ==> call_ensures(job, (r,), #[trigger] outputs@[r as int]),
        decreases job_count - run,
    {
        let start = clock_now();
        let result = job(run);
        let elapsed = clock_elapsed(&start);
        durations.push(clamp_nanos(whole_nanos(&elapsed)));
        outputs.push(result);
        run += 1;
    }
    let mean: u64 = mean_of_measured(&durations);
    (mean, durations, outputs)
}

} // verus!
