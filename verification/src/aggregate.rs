//! Folding partial results into one value and checking it against an oracle.

use vstd::prelude::*;

verus! {

/// The sum of a sequence of partial results.
pub open spec fn seq_sum(s: Seq<i64>) -> int
    decreases s.len(),
{
    if s.len() == 0 {
        0
    } else {
        seq_sum(s.drop_last()) + s.last()
    }
}

/// Appending a result adds it to the sum.
pub proof fn lemma_sum_push(s: Seq<i64>, x: i64)
    ensures
        seq_sum(s.push(x)) == seq_sum(s) + x,
{
    assert(s.push(x).drop_last() =~= s);
}

/// The sum of a concatenation is the sum of the sums.
pub proof fn lemma_sum_concat(a: Seq<i64>, b: Seq<i64>)
    ensures
        seq_sum(a + b) == seq_sum(a) + seq_sum(b),
    decreases b.len(),
{
    if b.len() == 0 {
        assert(a + b =~= a);
    } else {
        lemma_sum_concat(a, b.drop_last());
        assert((a + b).drop_last() =~= a + b.drop_last());
    }
}

/// Taking one result out of the sequence takes it out of the sum.
pub proof fn lemma_sum_remove(s: Seq<i64>, i: int)
    requires
        0 <= i < s.len(),
    ensures
        seq_sum(s.remove(i)) == seq_sum(s) - s[i],
{
    let front = s.subrange(0, i);
    let back = s.subrange(i + 1, s.len() as int);
    assert(s.remove(i) =~= front + back);
    assert(s =~= front.push(s[i]) + back);
    lemma_sum_concat(front, back);
    lemma_sum_concat(front.push(s[i]), back);
    lemma_sum_push(front, s[i]);
}

/// A sum of `n` 64-bit values stays within `n` times the 64-bit range.
pub proof fn lemma_sum_bounds(s: Seq<i64>)
    ensures
        s.len() * (i64::MIN as int) <= seq_sum(s) <= s.len() * (i64::MAX as int),
    decreases s.len(),
{
    if s.len() > 0 {
        lemma_sum_bounds(s.drop_last());
        let n = s.len() as int;
        assert((n - 1) * (i64::MIN as int) + (i64::MIN as int) == n * (i64::MIN as int))
            by (nonlinear_arith);
        assert((n - 1) * (i64::MAX as int) + (i64::MAX as int) == n * (i64::MAX as int))
            by (nonlinear_arith);
    } else {
        assert(0 * (i64::MIN as int) == 0 && 0 * (i64::MAX as int) == 0) by (nonlinear_arith);
    }
}

/// The sum does not depend on the order in which the results arrived: two
/// sequences that hold the same results the same number of times have the
/// same sum.
pub proof fn lemma_sum_order_independent(a: Seq<i64>, b: Seq<i64>)
    requires
        a.to_multiset() == b.to_multiset(),
    ensures
        seq_sum(a) == seq_sum(b),
    decreases a.len(),
{
    broadcast use vstd::seq_lib::group_to_multiset_ensures;

    if a.len() == 0 {
        assert(a.to_multiset().len() == 0);
        assert(b.to_multiset().len() == b.len());
    } else {
        let x = a.last();
        assert(a =~= a.drop_last().push(x));
        assert(a.to_multiset().count(x) > 0);
        assert(b.contains(x));
        let i = choose|i: int| 0 <= i < b.len() && b[i] == x;
        assert(a.drop_last() =~= a.remove(a.len() - 1));
        assert(a.drop_last().to_multiset() =~= b.remove(i).to_multiset());
        lemma_sum_order_independent(a.drop_last(), b.remove(i));
        lemma_sum_remove(b, i);
    }
}

/// Folds the partial results that were delivered and says whether as many
/// arrived as jobs were sent. The value is exact: it is wide enough for any
/// number of 64-bit results.
pub fn aggregate(results: &Vec<i64>, expected_job_count: usize) -> (outcome: (i128, bool))
    ensures
        outcome.0 == seq_sum(results@),
        outcome.1 == (results@.len() == expected_job_count),
{
    let mut total: i128 = 0;
    let mut taken: usize = 0;
    while taken < results.len()
        invariant
            taken <= results@.len(),
            total == seq_sum(results@.take(taken as int)),
        decreases results@.len() - taken,
    {
        proof {
            let next = results@.take(taken as int + 1);
            assert(next.drop_last() =~= results@.take(taken as int));
            lemma_sum_bounds(results@.take(taken as int));
            lemma_fold_fits(taken as int, total as int);
        }
        total = total + results[taken] as i128;
        taken += 1;
    }
    proof {
        assert(results@.take(taken as int) =~= results@);
    }
    (total, results.len() == expected_job_count)
}

/// A partial fold of fewer than 2^64 results leaves room for one more.
proof fn lemma_fold_fits(taken: int, total: int)
    requires
        0 <= taken < 0x1_0000_0000_0000_0000,
        taken * (i64::MIN as int) <= total <= taken * (i64::MAX as int),
    ensures
        i128::MIN - (i64::MIN as int) <= total <= i128::MAX - (i64::MAX as int),
{
    assert(taken * (i64::MIN as int) >= 0xffff_ffff_ffff_ffff * (i64::MIN as int))
        by (nonlinear_arith)
        requires
            0 <= taken <= 0xffff_ffff_ffff_ffff,
    ;
    assert(taken * (i64::MAX as int) <= 0xffff_ffff_ffff_ffff * (i64::MAX as int))
        by (nonlinear_arith)
        requires
            0 <= taken <= 0xffff_ffff_ffff_ffff,
    ;
}

/// Whether the aggregated value is the one the analytic oracle predicts.
pub fn matches_oracle(final_value: i128, expected_total: i128) -> (ok: bool)
    ensures
        ok == (final_value == expected_total),
{
    final_value == expected_total
}

} // verus!
