//! The sampling workload: how many samples each thread draws, and how the
//! threads' counts are put together.

use vstd::prelude::*;

verus! {

/// Thread counts that the scenario compares.
pub const THREAD_OPTIONS: [usize; 4] = [1, 2, 4, 8];

/// Samples per thread that an empty input line stands for.
pub const DEFAULT_SAMPLES_PER_THREAD: usize = 200_000;

/// Factors by which the base number of samples is scaled.
pub const WORKLOAD_MULTIPLIERS: [usize; 3] = [1, 5, 25];

/// What one thread, or all threads together, counted.
#[derive(Clone, Copy, Debug, PartialEq, Eq, Default)]
pub struct SampleCounts {
    /// Samples drawn.
    pub total_samples: usize,
    /// Samples that fell inside the circle.
    pub inside_circle: usize,
}

/// `base` times `factor`, or the largest word where that does not fit.
pub open spec fn scaled(base: usize, factor: usize) -> usize {
    if base * factor > usize::MAX {
        usize::MAX
    } else {
        (base * factor) as usize
    }
}

/// The total of the samples drawn by `parts`.
pub open spec fn samples_sum(parts: Seq<SampleCounts>) -> nat
    decreases parts.len(),
{
    if parts.len() == 0 {
        0
    } else {
        samples_sum(parts.drop_last()) + parts.last().total_samples as nat
    }
}

/// The total of the samples of `parts` that fell inside the circle.
pub open spec fn inside_sum(parts: Seq<SampleCounts>) -> nat
    decreases parts.len(),
{
    if parts.len() == 0 {
        0
    } else {
        inside_sum(parts.drop_last()) + parts.last().inside_circle as nat
    }
}

/// No more samples fall inside the circle than were drawn.
pub proof fn lemma_inside_at_most_drawn(parts: Seq<SampleCounts>)
    requires
        forall|i: int| 0 <= i < parts.len() ==> (#[trigger] parts[i]).inside_circle
            <= parts[i].total_samples,
    ensures
        inside_sum(parts) <= samples_sum(parts),
    decreases parts.len(),
{
    if parts.len() > 0 {
        assert forall|i: int| 0 <= i < parts.drop_last().len() implies (
        #[trigger] parts.drop_last()[i]).inside_circle <= parts.drop_last()[i].total_samples by {
            assert(parts.drop_last()[i] == parts[i]);
        }
        lemma_inside_at_most_drawn(parts.drop_last());
        assert(parts.last() == parts[parts.len() - 1]);
    }
}

/// The numbers of samples per thread that the scenario runs: the base number
/// scaled by each multiplier, saturating.
pub fn workloads(base_samples: usize) -> (sizes: Vec<usize>)
    ensures
        sizes@.len() == WORKLOAD_MULTIPLIERS@.len(),
        forall|i: int|
            0 <= i < sizes@.len() ==> #[trigger] sizes@[i] == scaled(
                base_samples,
                WORKLOAD_MULTIPLIERS@[i],
            ),
{
    let mut sizes: Vec<usize> = Vec::new();
    let mut i: usize = 0;
    while i < 3
        invariant
            i <= 3,
            WORKLOAD_MULTIPLIERS@.len() == 3,
            sizes@.len() == i,
            forall|k: int|
                0 <= k < i ==> #[trigger] sizes@[k] == scaled(
                    base_samples,
                    WORKLOAD_MULTIPLIERS@[k],
                ),
        decreases 3 - i,
    {
        let factor: usize = WORKLOAD_MULTIPLIERS[i];
        let size: usize = match base_samples.checked_mul(factor) {
            Some(product) => product,
            None => usize::MAX,
        };
        sizes.push(size);
        i += 1;
    }
    sizes
}

/// Adds up what the threads counted, or `None` where a total does not fit
/// the machine's word.
pub fn combine_counts(parts: &Vec<SampleCounts>) -> (combined: Option<SampleCounts>)
    ensures
        match combined {
            Some(counts) => counts.total_samples == samples_sum(parts@) && counts.inside_circle
                == inside_sum(parts@),
            None => samples_sum(parts@) > usize::MAX || inside_sum(parts@) > usize::MAX,
        },
{
    let mut total: usize = 0;
    let mut inside: usize = 0;
    let mut i: usize = 0;
    assert(parts@.take(0) =~= Seq::<SampleCounts>::empty());
    while i < parts.len()
        invariant
            i <= parts@.len(),
            total == samples_sum(parts@.take(i as int)),
            inside == inside_sum(parts@.take(i as int)),
        decreases parts@.len() - i,
    {
        proof {
            let upto = parts@.take(i as int + 1);
            assert(upto.drop_last() =~= parts@.take(i as int));
            assert(upto.last() == parts@[i as int]);
            lemma_samples_grow(parts@, i as int + 1);
        }
        let part = parts[i];
        match total.checked_add(part.total_samples) {
            Some(sum) => {
                total = sum;
            },
            None => {
                return None;
            },
        }
        match inside.checked_add(part.inside_circle) {
            Some(sum) => {
                inside = sum;
            },
            None => {
                return None;
            },
        }
        i += 1;
    }
    assert(parts@.take(i as int) =~= parts@);
    Some(SampleCounts { total_samples: total, inside_circle: inside })
}

/// The totals of the first parts are no larger than the totals of all.
proof fn lemma_samples_grow(parts: Seq<SampleCounts>, count: int)
    requires
        0 <= count <= parts.len(),
    ensures
        samples_sum(parts.take(count)) <= samples_sum(parts),
        inside_sum(parts.take(count)) <= inside_sum(parts),
    decreases parts.len() - count,
{
    if count == parts.len() {
        assert(parts.take(count) =~= parts);
    } else {
        lemma_samples_grow(parts.drop_last(), count);
        assert(parts.drop_last().take(count) =~= parts.take(count));
    }
}

} // verus!
