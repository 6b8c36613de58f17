//! How a fixed number of items is split among producers.
//!
//! Every producer gets `total / producers` items and the first
//! `total % producers` producers get one more. Shares are contiguous ranges of
//! item indices: together they cover `0..total` and no two overlap.

use vstd::prelude::*;

verus! {

/// Number of items that producer `id` enqueues.
pub open spec fn share_size(total: nat, producers: nat, id: nat) -> nat
    recommends
        producers > 0,
{
    total / producers + if id < total % producers {
        1nat
    } else {
        0nat
    }
}

/// Index of the first item of producer `id`; for `id == producers`, `total`.
pub open spec fn share_start(total: nat, producers: nat, id: nat) -> nat
    recommends
        producers > 0,
{
    id * (total / producers) + if id < total % producers {
        id
    } else {
        total % producers
    }
}

/// Each share begins where the previous one ends.
pub proof fn lemma_share_start_step(total: nat, producers: nat, id: nat)
    requires
        producers > 0,
    ensures
        share_start(total, producers, id + 1) == share_start(total, producers, id) + share_size(
            total,
            producers,
            id,
        ),
{
    let q = total / producers;
    assert((id + 1) * q == id * q + q) by (nonlinear_arith);
}

/// The shares start at zero and end at `total`: nothing is left out.
pub proof fn lemma_shares_cover(total: nat, producers: nat)
    requires
        producers > 0,
    ensures
        share_start(total, producers, 0) == 0,
        share_start(total, producers, producers) == total,
{
    let q = total / producers;
    let r = total % producers;
    assert(0 * q == 0) by (nonlinear_arith);
    assert(r < producers && total == producers * q + r) by (nonlinear_arith)
        requires
            producers > 0,
            q == total / producers,
            r == total % producers,
    ;
}

/// Later producers start later: shares are laid out in producer order.
pub proof fn lemma_share_start_monotonic(total: nat, producers: nat, a: nat, b: nat)
    requires
        producers > 0,
        a <= b,
    ensures
        share_start(total, producers, a) <= share_start(total, producers, b),
    decreases b - a,
{
    if a < b {
        lemma_share_start_monotonic(total, producers, a, (b - 1) as nat);
        lemma_share_start_step(total, producers, (b - 1) as nat);
    }
}

/// Two different producers never own the same item.
pub proof fn lemma_shares_disjoint(total: nat, producers: nat, a: nat, b: nat, item: nat)
    requires
        producers > 0,
        a != b,
        share_start(total, producers, a) <= item < share_start(total, producers, a + 1),
    ensures
        !(share_start(total, producers, b) <= item < share_start(total, producers, b + 1)),
{
    if a < b {
        lemma_share_start_monotonic(total, producers, a + 1, b);
    } else {
        lemma_share_start_monotonic(total, producers, b + 1, a);
    }
}

/// Every item belongs to some producer: the result is its index.
pub proof fn lemma_owner_exists(total: nat, producers: nat, item: nat) -> (owner: nat)
    requires
        producers > 0,
        item < total,
    ensures
        owner < producers,
        share_start(total, producers, owner) <= item < share_start(total, producers, owner + 1),
{
    lemma_shares_cover(total, producers);
    lemma_owner_below(total, producers, item, producers)
}

proof fn lemma_owner_below(total: nat, producers: nat, item: nat, bound: nat) -> (owner: nat)
    requires
        producers > 0,
        bound <= producers,
        item < share_start(total, producers, bound),
    ensures
        owner < bound,
        share_start(total, producers, owner) <= item < share_start(total, producers, owner + 1),
    decreases bound,
{
    if bound == 0 {
        lemma_shares_cover(total, producers);
        0
    } else if share_start(total, producers, (bound - 1) as nat) <= item {
        (bound - 1) as nat
    } else {
        lemma_owner_below(total, producers, item, (bound - 1) as nat)
    }
}

/// The sum of the sizes of the first `upto` shares.
pub open spec fn shares_total(total: nat, producers: nat, upto: nat) -> nat
    decreases upto,
{
    if upto == 0 {
        0
    } else {
        shares_total(total, producers, (upto - 1) as nat) + share_size(
            total,
            producers,
            (upto - 1) as nat,
        )
    }
}

/// The first `upto` shares hold exactly the items before `share_start(upto)`.
pub proof fn lemma_shares_total(total: nat, producers: nat, upto: nat)
    requires
        producers > 0,
    ensures
        shares_total(total, producers, upto) == share_start(total, producers, upto),
    decreases upto,
{
    if upto == 0 {
        lemma_shares_cover(total, producers);
    } else {
        lemma_shares_total(total, producers, (upto - 1) as nat);
        lemma_share_start_step(total, producers, (upto - 1) as nat);
    }
}

/// Number of items that producer `id` of `producers` enqueues out of `total`.
pub fn share_len(total: usize, producers: usize, id: usize) -> (len: usize)
    requires
        producers > 0,
        id < producers,
    ensures
        len == share_size(total as nat, producers as nat, id as nat),
{
    let base: usize = total / producers;
    let remainder: usize = total % producers;
    proof {
        lemma_share_bounds(total as nat, producers as nat, id as nat);
    }
    if id < remainder {
        base + 1
    } else {
        base
    }
}

/// The half-open range of item indices that producer `id` enqueues.
pub fn share_range(total: usize, producers: usize, id: usize) -> (range: (usize, usize))
    requires
        producers > 0,
        id < producers,
    ensures
        range.0 == share_start(total as nat, producers as nat, id as nat),
        range.1 == share_start(total as nat, producers as nat, id as nat + 1),
        range.1 - range.0 == share_size(total as nat, producers as nat, id as nat),
        range.0 <= range.1 <= total,
{
    let base: usize = total / producers;
    let remainder: usize = total % producers;
    proof {
        lemma_share_bounds(total as nat, producers as nat, id as nat);
        lemma_share_start_step(total as nat, producers as nat, id as nat);
        assert(id * base <= total) by (nonlinear_arith)
            requires
                id < producers,
                base == total / producers,
                producers > 0,
        ;
    }
    let extra: usize = if id < remainder {
        id
    } else {
        remainder
    };
    let start: usize = id * base + extra;
    let len: usize = if id < remainder {
        base + 1
    } else {
        base
    };
    (start, start + len)
}

/// Every share lies inside `0..total`.
pub proof fn lemma_share_bounds(total: nat, producers: nat, id: nat)
    requires
        producers > 0,
        id < producers,
    ensures
        share_start(total, producers, id) + share_size(total, producers, id) <= total,
        share_start(total, producers, id + 1) <= total,
{
    lemma_share_start_step(total, producers, id);
    lemma_share_start_monotonic(total, producers, id + 1, producers);
    lemma_shares_cover(total, producers);
}

/// Largest tag base: producer ids are spread `TAG_STRIDE` apart.
pub const TAG_STRIDE: usize = 10_000;

/// The value that stands for "stop" on a queue of tagged items.
pub const SENTINEL: i32 = -1;

/// The tag of the `index`-th item of producer `producer`.
pub open spec fn item_tag(producer: nat, index: nat) -> nat {
    producer * 10_000 + index
}

/// Tags the `index`-th item of producer `producer`. A tag is never negative,
/// so it cannot be mistaken for the sentinel.
pub fn tag_item(producer: usize, index: usize) -> (tag: i32)
    requires
        item_tag(producer as nat, index as nat) <= i32::MAX,
    ensures
        tag == item_tag(producer as nat, index as nat),
        tag != SENTINEL,
{
    let wide: usize = producer * TAG_STRIDE + index;
    wide as i32
}

} // verus!
