//! The map-reduce workload: the sum of the vector `0, 1, .., len - 1`, cut
//! into chunks for the threads, with the closed formula as oracle.

use crate::aggregate::{lemma_sum_concat, seq_sum};
use vstd::prelude::*;

verus! {

/// Vector length that an empty input line stands for.
pub const DEFAULT_VECTOR_LEN: usize = 20_000_000;

/// Thread counts that the scenario compares.
pub const THREAD_COUNTS: [usize; 4] = [1, 2, 4, 8];

/// The sum `0 + 1 + .. + last`, and zero for a negative `last`.
pub open spec fn series_sum(last: int) -> int {
    if last < 0 {
        0
    } else {
        last * (last + 1) / 2
    }
}

/// The vector `0, 1, .., len - 1`.
pub open spec fn counting_seq(len: nat) -> Seq<i64> {
    Seq::new(len, |i: int| i as i64)
}

/// Whether a left-to-right 64-bit sum of `data` stays in range at every step.
pub open spec fn fold_fits(data: Seq<i64>) -> bool {
    forall|k: int|
        0 <= k <= data.len() ==> i64::MIN <= #[trigger] seq_sum(data.take(k)) <= i64::MAX
}

/// The chunk length for `len` elements and `threads` threads: `len` divided
/// by the number of threads that get work, rounded up.
pub open spec fn chunk_len(len: nat, threads: nat) -> nat {
    let workers = active_threads(len, threads);
    if workers == 0 {
        len
    } else {
        len / workers + if len % workers == 0 {
            0nat
        } else {
            1nat
        }
    }
}

/// The number of threads that may get work: no more than there are elements,
/// where there are any.
pub open spec fn active_threads(len: nat, threads: nat) -> nat {
    let most = if len == 0 {
        1nat
    } else {
        len
    };
    if threads < most {
        threads
    } else {
        most
    }
}

/// Whether `chunks` cuts `0..len` into consecutive ranges: the first starts
/// at zero, each starts where the one before ends, the last ends at `len`.
pub open spec fn partitions(chunks: Seq<(usize, usize)>, len: nat) -> bool {
    &&& chunks.len() >= 1
    &&& chunks[0].0 == 0
    &&& chunks.last().1 == len
    &&& forall|i: int| 0 <= i < chunks.len() ==> (#[trigger] chunks[i]).0 <= chunks[i].1
    &&& forall|i: int| 0 <= i < chunks.len() - 1 ==> (#[trigger] chunks[i]).1 == chunks[i + 1].0
}

/// The sum of the chunk sums.
pub open spec fn chunks_total(data: Seq<i64>, chunks: Seq<(usize, usize)>) -> int
    decreases chunks.len(),
{
    if chunks.len() == 0 {
        0
    } else {
        chunks_total(data, chunks.drop_last()) + seq_sum(
            data.subrange(chunks.last().0 as int, chunks.last().1 as int),
        )
    }
}

/// One step of the series: adding `last` to the sum up to `last - 1`.
pub proof fn lemma_series_step(last: int)
    requires
        last >= 0,
    ensures
        series_sum(last) == series_sum(last - 1) + last,
{
    if last == 0 {
        assert(0 * (0 + 1) / 2 == 0) by (nonlinear_arith);
    } else {
        assert(last * (last + 1) == (last - 1) * last + 2 * last) by (nonlinear_arith);
        assert((last - 1) * (last - 1 + 1) == (last - 1) * last);
    }
}

/// The analytic oracle: the vector `0, 1, .., len - 1` sums to the closed
/// formula, whatever its length.
pub proof fn lemma_counting_sum(len: nat)
    requires
        len <= i64::MAX,
    ensures
        seq_sum(counting_seq(len)) == series_sum(len - 1),
    decreases len,
{
    if len > 0 {
        lemma_counting_sum((len - 1) as nat);
        assert(counting_seq(len).drop_last() =~= counting_seq((len - 1) as nat));
        lemma_series_step(len - 1);
    }
}

/// The series grows with its last term.
pub proof fn lemma_series_monotonic(a: int, b: int)
    requires
        a <= b,
    ensures
        0 <= series_sum(a) <= series_sum(b),
    decreases b - a,
{
    if a < b {
        lemma_series_monotonic(a, b - 1);
        if b >= 0 {
            lemma_series_step(b);
        }
    } else if a >= 0 {
        assert(a * (a + 1) >= 0) by (nonlinear_arith)
            requires
                a >= 0,
        ;
    }
}

/// A counting vector whose closed-form sum fits 64 bits can be summed from
/// left to right without overflow.
pub proof fn lemma_counting_fold_fits(len: nat)
    requires
        len <= i64::MAX,
        series_sum(len - 1) <= i64::MAX,
    ensures
        fold_fits(counting_seq(len)),
{
    assert forall|k: int| 0 <= k <= len implies i64::MIN <= #[trigger] seq_sum(
        counting_seq(len).take(k),
    ) <= i64::MAX by {
        assert(counting_seq(len).take(k) =~= counting_seq(k as nat));
        lemma_counting_sum(k as nat);
        lemma_series_monotonic(k - 1, len - 1);
    }
}

/// Cutting a vector into consecutive chunks and adding up the chunk sums
/// gives the sum of the vector.
pub proof fn lemma_chunks_sum_to_whole(data: Seq<i64>, chunks: Seq<(usize, usize)>)
    requires
        partitions(chunks, data.len()),
    ensures
        chunks_total(data, chunks) == seq_sum(data),
{
    lemma_chunks_prefix(data, chunks, chunks.len() as int);
    assert(chunks.take(chunks.len() as int) =~= chunks);
    assert(data.take(data.len() as int) =~= data);
}

proof fn lemma_chunks_prefix(data: Seq<i64>, chunks: Seq<(usize, usize)>, count: int)
    requires
        partitions(chunks, data.len()),
        1 <= count <= chunks.len(),
    ensures
        chunks[count - 1].1 <= data.len(),
        chunks_total(data, chunks.take(count)) == seq_sum(data.take(chunks[count - 1].1 as int)),
    decreases count,
{
    lemma_chunk_ends_ordered(chunks, count - 1, chunks.len() - 1);
    let upto = chunks.take(count);
    let last = chunks[count - 1];
    assert(upto.last() == last);
    if count == 1 {
        assert(upto.drop_last() =~= Seq::<(usize, usize)>::empty());
        assert(chunks_total(data, upto.drop_last()) == 0);
        assert(data.subrange(0, last.1 as int) =~= data.take(last.1 as int));
    } else {
        lemma_chunks_prefix(data, chunks, count - 1);
        assert(upto.drop_last() =~= chunks.take(count - 1));
        assert(chunks[count - 2].1 == chunks[count - 1].0);
        let head = data.take(last.0 as int);
        let tail = data.subrange(last.0 as int, last.1 as int);
        assert(head + tail =~= data.take(last.1 as int));
        lemma_sum_concat(head, tail);
    }
}

proof fn lemma_chunk_ends_ordered(chunks: Seq<(usize, usize)>, i: int, k: int)
    requires
        forall|t: int| 0 <= t < chunks.len() ==> (#[trigger] chunks[t]).0 <= chunks[t].1,
        forall|t: int| 0 <= t < chunks.len() - 1 ==> (#[trigger] chunks[t]).1 == chunks[t + 1].0,
        0 <= i <= k < chunks.len(),
    ensures
        chunks[i].1 <= chunks[k].1,
    decreases k - i,
{
    if i < k {
        lemma_chunk_ends_ordered(chunks, i, k - 1);
        assert(chunks[k - 1].1 == chunks[k].0);
        assert(chunks[k].0 <= chunks[k].1);
    }
}

/// The vector `0, 1, .., len - 1`.
pub fn generate_vector(len: usize) -> (data: Vec<i64>)
    requires
        len <= i64::MAX,
    ensures
        data@ == counting_seq(len as nat),
{
    let mut data: Vec<i64> = Vec::new();
    let mut next: usize = 0;
    while next < len
        invariant
            next <= len <= i64::MAX,
            data@ == counting_seq(next as nat),
        decreases len - next,
    {
        data.push(next as i64);
        next += 1;
        assert(data@ =~= counting_seq(next as nat));
    }
    data
}

/// The closed formula for `0 + 1 + .. + last_value`; zero for a negative
/// argument.
pub fn arithmetic_series_sum(last_value: i64) -> (sum: i64)
    requires
        last_value < 0 || last_value * (last_value + 1) <= i64::MAX,
    ensures
        sum == series_sum(last_value as int),
{
    if last_value < 0 {
        return 0;
    }
    assert(last_value < i64::MAX && last_value * (last_value + 1) >= 0) by (nonlinear_arith)
        requires
            last_value >= 0,
            last_value * (last_value + 1) <= i64::MAX,
    ;
    last_value * (last_value + 1) / 2
}

/// The sum of `data[start..end]`, added up from left to right.
pub fn chunk_sum(data: &Vec<i64>, start: usize, end: usize) -> (sum: i64)
    requires
        start <= end <= data@.len(),
        fold_fits(data@.subrange(start as int, end as int)),
    ensures
        sum == seq_sum(data@.subrange(start as int, end as int)),
{
    let ghost chunk = data@.subrange(start as int, end as int);
    let mut sum: i64 = 0;
    let mut i: usize = start;
    assert(chunk.take(0) =~= Seq::<i64>::empty());
    while i < end
        invariant
            start <= i <= end <= data@.len(),
            chunk == data@.subrange(start as int, end as int),
            fold_fits(chunk),
            sum == seq_sum(chunk.take(i - start)),
        decreases end - i,
    {
        proof {
            let upto = chunk.take(i - start + 1);
            assert(upto.drop_last() =~= chunk.take(i - start));
            assert(upto.last() == data@[i as int]);
            assert(i64::MIN <= seq_sum(upto) <= i64::MAX);
        }
        sum = sum + data[i];
        i += 1;
    }
    assert(chunk.take(i - start) =~= chunk);
    sum
}

/// The sum of the whole vector, added up from left to right.
pub fn sequential_sum(data: &Vec<i64>) -> (sum: i64)
    requires
        fold_fits(data@),
    ensures
        sum == seq_sum(data@),
{
    assert(data@.subrange(0, data@.len() as int) =~= data@);
    chunk_sum(data, 0, data.len())
}

/// Cuts `0..len` into the chunks that the threads sum: consecutive ranges of
/// `chunk_len` elements, the last one shorter where `len` is no multiple. No
/// chunk is empty unless the vector is, and there are no more chunks than
/// threads that may get work, but always one.
pub fn plan_chunks(len: usize, threads: usize) -> (chunks: Vec<(usize, usize)>)
    ensures
        partitions(chunks@, len as nat),
        forall|i: int|
            0 <= i < chunks@.len() ==> (#[trigger] chunks@[i]).0 == i * chunk_len(
                len as nat,
                threads as nat,
            ),
        forall|i: int|
            0 <= i < chunks@.len() - 1 ==> (#[trigger] chunks@[i]).1 - chunks@[i].0 == chunk_len(
                len as nat,
                threads as nat,
            ),
        forall|i: int|
            0 <= i < chunks@.len() ==> (#[trigger] chunks@[i]).1 - chunks@[i].0 <= chunk_len(
                len as nat,
                threads as nat,
            ),
        forall|i: int| 0 <= i < chunks@.len() ==> (#[trigger] chunks@[i]).0 < len || len == 0,
        chunks@.len() <= active_threads(len as nat, threads as nat) || chunks@.len() == 1,
{
    let most: usize = if len == 0 {
        1
    } else {
        len
    };
    let workers: usize = if threads < most {
        threads
    } else {
        most
    };
    let mut chunks: Vec<(usize, usize)> = Vec::new();
    if workers <= 1 {
        chunks.push((0, len));
        assert(chunk_len(len as nat, threads as nat) == len || len == 0) by {
            if workers == 1 {
                let l = len as nat;
                let w = active_threads(l, threads as nat);
                assert(w == 1);
                assert(l / w == l && l % w == 0) by (nonlinear_arith)
                    requires
                        w == 1,
                ;
            }
        }
        assert(0 * chunk_len(len as nat, threads as nat) == 0) by (nonlinear_arith);
        return chunks;
    }
    assert(len / workers < usize::MAX) by (nonlinear_arith)
        requires
            2 <= workers <= len <= usize::MAX,
    ;
    let size: usize = len / workers + if len % workers == 0 {
        0
    } else {
        1
    };
    proof {
        assert(size >= 1 && workers * size >= len) by (nonlinear_arith)
            requires
                2 <= workers <= len,
                size == len / workers + if len % workers == 0 {
                    0int
                } else {
                    1int
                },
        ;
    }
    let mut start: usize = 0;
    let mut idx: usize = 0;
    assert(0 * size == 0) by (nonlinear_arith);
    while start < len
        invariant
            2 <= workers <= len,
            size >= 1,
            workers * size >= len,
            size == chunk_len(len as nat, threads as nat),
            workers == active_threads(len as nat, threads as nat),
            start <= len,
            start == idx * size || (start == len && idx * size >= len),
            idx <= workers,
            chunks@.len() == idx,
            idx > 0 ==> chunks@[0].0 == 0 && chunks@.last().1 == start,
            forall|i: int| 0 <= i < idx ==> (#[trigger] chunks@[i]).0 <= chunks@[i].1,
            forall|i: int| 0 <= i < idx ==> (#[trigger] chunks@[i]).0 < len,
            forall|i: int| 0 <= i < idx ==> (#[trigger] chunks@[i]).0 == i * size,
            forall|i: int| 0 <= i < idx - 1 ==> (#[trigger] chunks@[i]).1 == chunks@[i + 1].0,
            forall|i: int| 0 <= i < idx - 1 ==> (#[trigger] chunks@[i]).1 - chunks@[i].0 == size,
            forall|i: int| 0 <= i < idx ==> (#[trigger] chunks@[i]).1 - chunks@[i].0 <= size,
        decreases len - start,
    {
        proof {
            assert(idx < workers) by (nonlinear_arith)
                requires
                    idx * size < len,
                    workers * size >= len,
                    idx <= workers,
                    size >= 1,
            ;
            assert((idx + 1) * size == idx * size + size) by (nonlinear_arith);
            if idx > 0 {
                assert(idx * size - (idx - 1) * size == size) by (nonlinear_arith);
                assert(chunks@[idx - 1].1 - chunks@[idx - 1].0 == size);
            }
        }
        let end: usize = if len - start <= size {
            len
        } else {
            start + size
        };
        chunks.push((start, end));
        start = end;
        idx += 1;
    }
    chunks
}

} // verus!
