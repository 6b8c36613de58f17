//! The block-sum workload of the worker pool: a deterministic dataset cut
//! into blocks, one job per block, and the sequential reference that the
//! pooled runs are checked against.

use crate::aggregate::{lemma_sum_push, seq_sum};
use vstd::prelude::*;

verus! {

/// Number of jobs of the scenario.
pub const TASK_COUNT: usize = 400;

/// Number of elements each job sums.
pub const BLOCK_SIZE: usize = 1_000;

/// Pool sizes that the scenario compares.
pub const THREAD_POOL_SIZES: [usize; 3] = [2, 4, 8];

/// The most elements that one 64-bit sum of 32-bit values can take without
/// any risk of overflow.
pub const SPAN_LIMIT: u64 = 0x1_0000_0000;

/// The final output of one run.
#[derive(Clone, Copy, Debug, PartialEq, Eq, Default)]
pub struct ExecutionResult {
    pub total_sum: i64,
}

/// The element of the dataset at `index`.
pub open spec fn datum(index: int) -> int {
    (index * 31 + 7) % 1_000 - 500
}

/// The sum of `data[start..end]`.
pub open spec fn range_sum(data: Seq<i32>, start: int, end: int) -> int
    decreases end - start,
{
    if start >= end {
        0
    } else {
        range_sum(data, start, end - 1) + data[end - 1]
    }
}

/// The number of elements that the blocks hold, all together.
pub open spec fn span_total(tasks: Seq<(usize, usize)>) -> int
    decreases tasks.len(),
{
    if tasks.len() == 0 {
        0
    } else {
        span_total(tasks.drop_last()) + (tasks.last().1 - tasks.last().0)
    }
}

/// The sum of the block sums.
pub open spec fn tasks_total(data: Seq<i32>, tasks: Seq<(usize, usize)>) -> int
    decreases tasks.len(),
{
    if tasks.len() == 0 {
        0
    } else {
        tasks_total(data, tasks.drop_last()) + range_sum(
            data,
            tasks.last().0 as int,
            tasks.last().1 as int,
        )
    }
}

/// Whether every block is a range of the dataset.
pub open spec fn blocks_in_bounds(data: Seq<i32>, tasks: Seq<(usize, usize)>) -> bool {
    forall|t: int| 0 <= t < tasks.len() ==> (#[trigger] tasks[t]).0 <= tasks[t].1 <= data.len()
}

/// A sum of `n` 32-bit values stays within `n` times the 32-bit range.
pub proof fn lemma_range_sum_bounds(data: Seq<i32>, start: int, end: int)
    requires
        start <= end,
    ensures
        (end - start) * (i32::MIN as int) <= range_sum(data, start, end) <= (end - start) * (
        i32::MAX as int),
    decreases end - start,
{
    let n = end - start;
    if n > 0 {
        lemma_range_sum_bounds(data, start, end - 1);
        assert((n - 1) * (i32::MIN as int) + (i32::MIN as int) == n * (i32::MIN as int))
            by (nonlinear_arith);
        assert((n - 1) * (i32::MAX as int) + (i32::MAX as int) == n * (i32::MAX as int))
            by (nonlinear_arith);
    } else {
        assert(0 * (i32::MIN as int) == 0 && 0 * (i32::MAX as int) == 0) by (nonlinear_arith);
    }
}

/// The blocks' sums, all together, stay within the range that their span
/// allows; no block spans more than all blocks together.
pub proof fn lemma_tasks_total_bounds(data: Seq<i32>, tasks: Seq<(usize, usize)>)
    requires
        forall|t: int| 0 <= t < tasks.len() ==> (#[trigger] tasks[t]).0 <= tasks[t].1,
    ensures
        span_total(tasks) >= 0,
        span_total(tasks) * (i32::MIN as int) <= tasks_total(data, tasks) <= span_total(tasks) * (
        i32::MAX as int),
    decreases tasks.len(),
{
    if tasks.len() > 0 {
        let rest = tasks.drop_last();
        let last = tasks.last();
        assert forall|t: int| 0 <= t < rest.len() implies (#[trigger] rest[t]).0 <= rest[t].1 by {
            assert(rest[t] == tasks[t]);
        }
        lemma_tasks_total_bounds(data, rest);
        lemma_range_sum_bounds(data, last.0 as int, last.1 as int);
        let a = span_total(rest);
        let b = last.1 - last.0;
        assert(a * (i32::MIN as int) + b * (i32::MIN as int) == (a + b) * (i32::MIN as int))
            by (nonlinear_arith);
        assert(a * (i32::MAX as int) + b * (i32::MAX as int) == (a + b) * (i32::MAX as int))
            by (nonlinear_arith);
    } else {
        assert(0 * (i32::MIN as int) == 0 && 0 * (i32::MAX as int) == 0) by (nonlinear_arith);
    }
}

/// A span within the limit keeps a 64-bit sum in range.
proof fn lemma_span_fits(span: int, sum: int)
    requires
        0 <= span <= SPAN_LIMIT,
        span * (i32::MIN as int) <= sum <= span * (i32::MAX as int),
    ensures
        i64::MIN <= sum <= i64::MAX,
{
    assert(span * (i32::MIN as int) >= 0x1_0000_0000 * (i32::MIN as int)) by (nonlinear_arith)
        requires
            0 <= span <= 0x1_0000_0000,
    ;
    assert(span * (i32::MAX as int) <= 0x1_0000_0000 * (i32::MAX as int)) by (nonlinear_arith)
        requires
            0 <= span <= 0x1_0000_0000,
    ;
}

/// The dataset: `len` elements, each between -500 and 499, in a fixed
/// pattern.
pub fn generate_data(len: usize) -> (data: Vec<i32>)
    requires
        len * 31 <= i32::MAX - 7,
    ensures
        data@.len() == len,
        forall|i: int| 0 <= i < len ==> #[trigger] data@[i] == datum(i),
{
    let mut data: Vec<i32> = Vec::new();
    let mut idx: usize = 0;
    while idx < len
        invariant
            idx <= len,
            len * 31 <= i32::MAX - 7,
            data@.len() == idx,
            forall|i: int| 0 <= i < idx ==> #[trigger] data@[i] == datum(i),
        decreases len - idx,
    {
        let value: i32 = ((idx as i32 * 31 + 7) % 1_000) - 500;
        data.push(value);
        idx += 1;
    }
    data
}

/// The jobs: `task_count` blocks of `block_size` elements, one after the
/// other from the start of the dataset.
pub fn build_tasks(task_count: usize, block_size: usize) -> (tasks: Vec<(usize, usize)>)
    requires
        task_count * block_size <= usize::MAX,
    ensures
        tasks@.len() == task_count,
        forall|t: int|
            0 <= t < task_count ==> #[trigger] tasks@[t] == ((t * block_size) as usize, (t
                * block_size + block_size) as usize),
        span_total(tasks@) == task_count * block_size,
{
    let mut tasks: Vec<(usize, usize)> = Vec::new();
    let mut task: usize = 0;
    assert(0 * block_size == 0) by (nonlinear_arith);
    while task < task_count
        invariant
            task <= task_count,
            task_count * block_size <= usize::MAX,
            tasks@.len() == task,
            forall|t: int|
                0 <= t < task ==> #[trigger] tasks@[t] == ((t * block_size) as usize, (t
                    * block_size + block_size) as usize),
            span_total(tasks@) == task * block_size,
        decreases task_count - task,
    {
        proof {
            assert(task * block_size + block_size == (task + 1) * block_size)
                by (nonlinear_arith);
            assert((task + 1) * block_size <= task_count * block_size) by (nonlinear_arith)
                requires
                    task + 1 <= task_count,
            ;
        }
        let start: usize = task * block_size;
        let end: usize = start + block_size;
        let ghost before = tasks@;
        tasks.push((start, end));
        proof {
            assert(tasks@.drop_last() =~= before);
        }
        task += 1;
    }
    tasks
}

/// Executes one job: the sum of `data[start..end]`.
pub fn block_sum(data: &Vec<i32>, start: usize, end: usize) -> (partial: i64)
    requires
        start <= end <= data@.len(),
        end - start <= SPAN_LIMIT,
    ensures
        partial == range_sum(data@, start as int, end as int),
{
    let mut partial: i64 = 0;
    let mut i: usize = start;
    while i < end
        invariant
            start <= i <= end <= data@.len(),
            end - start <= SPAN_LIMIT,
            partial == range_sum(data@, start as int, i as int),
        decreases end - i,
    {
        proof {
            lemma_range_sum_bounds(data@, start as int, i as int + 1);
            lemma_span_fits(i + 1 - start, range_sum(data@, start as int, i as int + 1));
        }
        partial = partial + data[i] as i64;
        i += 1;
    }
    partial
}

/// The partial result of every job, in job order.
pub fn block_values(data: &Vec<i32>, tasks: &Vec<(usize, usize)>) -> (values: Vec<i64>)
    requires
        blocks_in_bounds(data@, tasks@),
        forall|t: int| 0 <= t < tasks@.len() ==> (#[trigger] tasks@[t]).1 - tasks@[t].0 <= SPAN_LIMIT,
    ensures
        values@.len() == tasks@.len(),
        forall|t: int|
            0 <= t < tasks@.len() ==> #[trigger] values@[t] == range_sum(
                data@,
                tasks@[t].0 as int,
                tasks@[t].1 as int,
            ),
        seq_sum(values@) == tasks_total(data@, tasks@),
{
    let mut values: Vec<i64> = Vec::new();
    let mut t: usize = 0;
    assert(tasks@.take(0) =~= Seq::<(usize, usize)>::empty());
    while t < tasks.len()
        invariant
            t <= tasks@.len(),
            blocks_in_bounds(data@, tasks@),
            forall|k: int|
                0 <= k < tasks@.len() ==> (#[trigger] tasks@[k]).1 - tasks@[k].0 <= SPAN_LIMIT,
            values@.len() == t,
            forall|k: int|
                0 <= k < t ==> #[trigger] values@[k] == range_sum(
                    data@,
                    tasks@[k].0 as int,
                    tasks@[k].1 as int,
                ),
            seq_sum(values@) == tasks_total(data@, tasks@.take(t as int)),
        decreases tasks@.len() - t,
    {
        let task = tasks[t];
        let partial: i64 = block_sum(data, task.0, task.1);
        proof {
            lemma_sum_push(values@, partial);
            let upto = tasks@.take(t as int + 1);
            assert(upto.drop_last() =~= tasks@.take(t as int));
            assert(upto.last() == tasks@[t as int]);
        }
        values.push(partial);
        t += 1;
    }
    assert(tasks@.take(t as int) =~= tasks@);
    values
}

/// The sequential reference: executes the jobs one after the other and adds
/// up their results.
pub fn sequential_process(data: &Vec<i32>, tasks: &Vec<(usize, usize)>) -> (result:
    ExecutionResult)
    requires
        blocks_in_bounds(data@, tasks@),
        span_total(tasks@) <= SPAN_LIMIT,
    ensures
        result.total_sum == tasks_total(data@, tasks@),
{
    let mut total: i64 = 0;
    let mut t: usize = 0;
    assert(tasks@.take(0) =~= Seq::<(usize, usize)>::empty());
    while t < tasks.len()
        invariant
            t <= tasks@.len(),
            blocks_in_bounds(data@, tasks@),
            span_total(tasks@) <= SPAN_LIMIT,
            total == tasks_total(data@, tasks@.take(t as int)),
        decreases tasks@.len() - t,
    {
        let task = tasks[t];
        proof {
            let upto = tasks@.take(t as int + 1);
            assert(upto.drop_last() =~= tasks@.take(t as int));
            assert(upto.last() == tasks@[t as int]);
            lemma_span_of_prefix(tasks@, t as int + 1);
            assert forall|k: int| 0 <= k < upto.len() implies (#[trigger] upto[k]).0
                <= upto[k].1 by {
                assert(upto[k] == tasks@[k]);
            }
            lemma_tasks_total_bounds(data@, upto);
            lemma_tasks_total_bounds(data@, tasks@.take(t as int));
            lemma_span_fits(span_total(upto), tasks_total(data@, upto));
        }
        let partial: i64 = block_sum(data, task.0, task.1);
        total = total + partial;
        t += 1;
    }
    assert(tasks@.take(t as int) =~= tasks@);
    ExecutionResult { total_sum: total }
}

/// The first blocks span no more than all of them.
proof fn lemma_span_of_prefix(tasks: Seq<(usize, usize)>, count: int)
    requires
        0 <= count <= tasks.len(),
        forall|t: int| 0 <= t < tasks.len() ==> (#[trigger] tasks[t]).0 <= tasks[t].1,
    ensures
        0 <= span_total(tasks.take(count)) <= span_total(tasks),
        count > 0 ==> tasks[count - 1].1 - tasks[count - 1].0 <= span_total(tasks.take(count)),
    decreases tasks.len() - count,
{
    let prefix = tasks.take(count);
    assert forall|t: int| 0 <= t < prefix.len() implies (#[trigger] prefix[t]).0
        <= prefix[t].1 by {
        assert(prefix[t] == tasks[t]);
    }
    lemma_tasks_total_bounds(Seq::<i32>::empty(), prefix);
    if count > 0 {
        assert(prefix.last() == tasks[count - 1]);
        let shorter = prefix.drop_last();
        assert forall|t: int| 0 <= t < shorter.len() implies (#[trigger] shorter[t]).0
            <= shorter[t].1 by {
            assert(shorter[t] == tasks[t]);
        }
        lemma_tasks_total_bounds(Seq::<i32>::empty(), shorter);
    }
    if count == tasks.len() {
        assert(prefix =~= tasks);
    } else {
        lemma_span_of_prefix(tasks, count + 1);
        assert(tasks.take(count + 1).drop_last() =~= prefix);
    }
}

} // verus!
