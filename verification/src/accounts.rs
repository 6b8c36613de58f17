//! The readers-and-writers workload: a small table of account balances that
//! readers sample and writers credit, and the oracle for its final total.

use std::collections::HashMap;
use vstd::prelude::*;

verus! {

broadcast use vstd::std_specs::hash::group_hash_axioms;

/// Number of reader threads.
pub const READERS: usize = 5;

/// Number of writer threads.
pub const WRITERS: usize = 2;

/// Reads that each reader performs.
pub const OPS_PER_READER: usize = 5_000;

/// Credits that each writer performs.
pub const OPS_PER_WRITER: usize = 3_000;

/// Number of accounts; the keys are `0..ACCOUNT_KEYS`.
pub const ACCOUNT_KEYS: usize = 64;

/// Accounts that one read looks at, starting from its base key.
pub const READ_WINDOW: u32 = 4;

/// What one thread did.
#[derive(Clone, Copy, Debug, PartialEq, Eq, Default)]
pub struct ThreadStats {
    pub reads: usize,
    pub writes: usize,
    pub observed_sum: i64,
}

/// What one run did, all threads together.
#[derive(Clone, Copy, Debug, PartialEq, Eq, Default)]
pub struct RunMetrics {
    pub final_sum: i64,
    pub total_reads: usize,
    pub total_writes: usize,
    pub read_accumulator: i64,
}

/// The balance that account `key` starts with.
pub open spec fn initial_balance(key: int) -> int {
    key * 3 - 50
}

/// The table before any writer has run.
pub open spec fn initial_table() -> Map<u32, i64> {
    Map::new(|key: u32| key < ACCOUNT_KEYS, |key: u32| initial_balance(key as int) as i64)
}

/// The balance of account `key`; an account that is not in the table holds
/// nothing.
pub open spec fn balance(table: Map<u32, i64>, key: u32) -> int {
    if table.contains_key(key) {
        table[key] as int
    } else {
        0
    }
}

/// The sum of the balances of the accounts `0..upto`.
pub open spec fn balances_upto(table: Map<u32, i64>, upto: nat) -> int
    decreases upto,
{
    if upto == 0 {
        0
    } else {
        balances_upto(table, (upto - 1) as nat) + balance(table, (upto - 1) as u32)
    }
}

/// The sum of all balances.
pub open spec fn table_total(table: Map<u32, i64>) -> int {
    balances_upto(table, ACCOUNT_KEYS as nat)
}

/// What writer `writer_id` adds with each credit.
pub open spec fn delta_of(writer_id: int) -> int {
    writer_id + 1
}

/// What the first `writers` writers add, with `ops` credits each.
pub open spec fn writers_total(writers: nat, ops: nat) -> int
    decreases writers,
{
    if writers == 0 {
        0
    } else {
        writers_total((writers - 1) as nat, ops) + delta_of(writers - 1) * ops
    }
}

/// The account that an actor touches in its `iter`-th operation.
pub open spec fn key_of(actor: nat, iter: nat, stride: nat) -> nat {
    (actor * stride + iter) % (ACCOUNT_KEYS as nat)
}

/// The table after the credits `writes`, applied in order.
pub open spec fn after_writes(table: Map<u32, i64>, writes: Seq<(u32, i64)>) -> Map<u32, i64>
    decreases writes.len(),
{
    if writes.len() == 0 {
        table
    } else {
        let before = after_writes(table, writes.drop_last());
        let (key, delta) = writes.last();
        before.insert(key, (balance(before, key) + delta) as i64)
    }
}

/// The sum of the amounts of the credits `writes`.
pub open spec fn credited(writes: Seq<(u32, i64)>) -> int
    decreases writes.len(),
{
    if writes.len() == 0 {
        0
    } else {
        credited(writes.drop_last()) + writes.last().1
    }
}

/// A credit changes the balances of the first `upto` accounts by its amount
/// if its account is among them, and not at all otherwise.
pub proof fn lemma_credit_changes_total(table: Map<u32, i64>, key: u32, value: i64, upto: nat)
    requires
        upto <= ACCOUNT_KEYS,
    ensures
        balances_upto(table.insert(key, value), upto) == balances_upto(table, upto) + if key
            < upto {
            value - balance(table, key)
        } else {
            0
        },
    decreases upto,
{
    if upto > 0 {
        lemma_credit_changes_total(table, key, value, (upto - 1) as nat);
    }
}

/// Whatever the order of the credits, the total rises by the sum of their
/// amounts, as long as no balance leaves the 64-bit range on the way.
pub proof fn lemma_total_after_writes(table: Map<u32, i64>, writes: Seq<(u32, i64)>)
    requires
        forall|i: int| 0 <= i < writes.len() ==> (#[trigger] writes[i]).0 < ACCOUNT_KEYS,
        forall|i: int|
            0 <= i < writes.len() ==> i64::MIN <= balance(
                after_writes(table, writes.take(i)),
                writes[i].0,
            ) + (#[trigger] writes[i]).1 <= i64::MAX,
    ensures
        table_total(after_writes(table, writes)) == table_total(table) + credited(writes),
    decreases writes.len(),
{
    if writes.len() > 0 {
        let rest = writes.drop_last();
        assert forall|i: int| 0 <= i < rest.len() implies i64::MIN <= balance(
            after_writes(table, rest.take(i)),
            rest[i].0,
        ) + (#[trigger] rest[i]).1 <= i64::MAX by {
            assert(rest.take(i) =~= writes.take(i));
            assert(rest[i] == writes[i]);
        }
        assert forall|i: int| 0 <= i < rest.len() implies (#[trigger] rest[i]).0
            < ACCOUNT_KEYS by {
            assert(rest[i] == writes[i]);
        }
        lemma_total_after_writes(table, rest);
        let before = after_writes(table, rest);
        let (key, delta) = writes.last();
        assert(writes.take(writes.len() - 1) =~= rest);
        assert(writes[writes.len() - 1] == writes.last());
        lemma_credit_changes_total(
            before,
            key,
            (balance(before, key) + delta) as i64,
            ACCOUNT_KEYS as nat,
        );
    }
}

/// The initial balances of the accounts `0..upto` in closed form.
pub proof fn lemma_initial_balances(upto: nat)
    requires
        upto <= ACCOUNT_KEYS,
    ensures
        2 * balances_upto(initial_table(), upto) == 3 * upto * (upto - 1) - 100 * upto,
    decreases upto,
{
    if upto > 0 {
        lemma_initial_balances((upto - 1) as nat);
        let k = (upto - 1) as int;
        assert(initial_table().contains_key(k as u32));
        assert(3 * (k + 1) * k - 100 * (k + 1) == 3 * k * (k - 1) - 100 * k + 2 * (k * 3 - 50))
            by (nonlinear_arith);
    } else {
        assert(3 * 0 * (0 - 1) - 100 * 0 == 0) by (nonlinear_arith);
    }
}

/// What the writer with this index adds with each credit.
pub fn writer_delta(writer_id: usize) -> (delta: i64)
    requires
        writer_id < i64::MAX,
    ensures
        delta == delta_of(writer_id as int),
{
    (writer_id as i64) + 1
}

/// The table before any writer has run.
pub fn initial_db() -> (db: HashMap<u32, i64>)
    ensures
        db@ == initial_table(),
{
    let mut db: HashMap<u32, i64> = HashMap::new();
    let mut key: u32 = 0;
    while key < ACCOUNT_KEYS as u32
        invariant
            key <= ACCOUNT_KEYS,
            db@ == Map::new(|k: u32| k < key, |k: u32| initial_balance(k as int) as i64),
        decreases ACCOUNT_KEYS - key,
    {
        db.insert(key, key as i64 * 3 - 50);
        key += 1;
        assert(db@ =~= Map::new(|k: u32| k < key, |k: u32| initial_balance(k as int) as i64));
    }
    db
}

/// The balance of one account, zero where the table does not hold it.
pub fn balance_of(db: &HashMap<u32, i64>, key: u32) -> (amount: i64)
    ensures
        amount == balance(db@, key),
{
    match db.get(&key) {
        Some(amount) => *amount,
        None => 0,
    }
}

/// The sum of all balances.
pub fn table_sum(db: &HashMap<u32, i64>) -> (total: i128)
    ensures
        total == table_total(db@),
{
    let mut total: i128 = 0;
    let mut key: u32 = 0;
    while key < ACCOUNT_KEYS as u32
        invariant
            key <= ACCOUNT_KEYS,
            total == balances_upto(db@, key as nat),
            key * (i64::MIN as int) <= total <= key * (i64::MAX as int),
        decreases ACCOUNT_KEYS - key,
    {
        total = total + balance_of(db, key) as i128;
        key += 1;
    }
    total
}

/// The final total that every correct run ends with: the initial balances
/// plus everything that the writers add.
pub fn expected_final_sum() -> (expected: i64)
    ensures
        expected == table_total(initial_table()) + writers_total(
            WRITERS as nat,
            OPS_PER_WRITER as nat,
        ),
        expected == 11_848,
{
    let db = initial_db();
    let initial: i128 = table_sum(&db);
    proof {
        lemma_initial_balances(ACCOUNT_KEYS as nat);
        assert(3 * 64 * (64 - 1) - 100 * 64 == 5_696) by (nonlinear_arith);
    }
    let mut added: i64 = 0;
    let mut writer: usize = 0;
    while writer < WRITERS
        invariant
            writer <= WRITERS,
            added == writers_total(writer as nat, OPS_PER_WRITER as nat),
            0 <= added <= writer * 6_000,
        decreases WRITERS - writer,
    {
        added = added + writer_delta(writer) * OPS_PER_WRITER as i64;
        writer += 1;
    }
    proof {
        reveal_with_fuel(writers_total, 3);
        assert(writers_total(2, 3_000) == 9_000);
    }
    (initial + added as i128) as i64
}

/// The sum of what the readers of the given runs observed.
pub fn sum_read_acc(runs: &[RunMetrics]) -> (sum: i64)
    requires
        observed_fits(runs@),
    ensures
        sum == observed_total(runs@),
{
    let mut sum: i64 = 0;
    let mut i: usize = 0;
    assert(runs@.take(0) =~= Seq::<RunMetrics>::empty());
    while i < runs.len()
        invariant
            i <= runs@.len(),
            observed_fits(runs@),
            sum == observed_total(runs@.take(i as int)),
        decreases runs@.len() - i,
    {
        proof {
            let upto = runs@.take(i as int + 1);
            assert(upto.drop_last() =~= runs@.take(i as int));
            assert(upto.last() == runs@[i as int]);
            assert(i64::MIN <= observed_total(upto) <= i64::MAX);
        }
        sum = sum + runs[i].read_accumulator;
        i += 1;
    }
    assert(runs@.take(i as int) =~= runs@);
    sum
}

/// Whether a left-to-right 64-bit sum of the read accumulators stays in
/// range at every step.
pub open spec fn observed_fits(runs: Seq<RunMetrics>) -> bool {
    forall|k: int|
        0 <= k <= runs.len() ==> i64::MIN <= #[trigger] observed_total(runs.take(k)) <= i64::MAX
}

/// The sum of the read accumulators of `runs`.
pub open spec fn observed_total(runs: Seq<RunMetrics>) -> int
    decreases runs.len(),
{
    if runs.len() == 0 {
        0
    } else {
        observed_total(runs.drop_last()) + runs.last().read_accumulator
    }
}

/// The account that an actor touches in its `iter`-th operation. Readers and
/// writers step through the accounts with different strides.
pub fn account_key(actor: usize, iter: usize, stride: usize) -> (key: u32)
    requires
        actor * stride + iter <= usize::MAX,
    ensures
        key == key_of(actor as nat, iter as nat, stride as nat),
        key < ACCOUNT_KEYS,
{
    assert(actor * stride >= 0) by (nonlinear_arith);
    ((actor * stride + iter) % ACCOUNT_KEYS) as u32
}

/// The sum of the `READ_WINDOW` balances from `base` on, wrapping around at
/// the last account.
pub open spec fn window_total(table: Map<u32, i64>, base: u32, width: nat) -> int
    decreases width,
{
    if width == 0 {
        0
    } else {
        window_total(table, base, (width - 1) as nat) + balance(
            table,
            ((base + width - 1) % (ACCOUNT_KEYS as int)) as u32,
        )
    }
}

/// One read: what a reader observes from `base` on.
pub fn read_window(db: &HashMap<u32, i64>, base: u32) -> (observed: i128)
    requires
        base < ACCOUNT_KEYS,
    ensures
        observed == window_total(db@, base, READ_WINDOW as nat),
{
    let mut observed: i128 = 0;
    let mut offset: u32 = 0;
    while offset < READ_WINDOW
        invariant
            offset <= READ_WINDOW,
            base < ACCOUNT_KEYS,
            observed == window_total(db@, base, offset as nat),
            offset * (i64::MIN as int) <= observed <= offset * (i64::MAX as int),
        decreases READ_WINDOW - offset,
    {
        let key: u32 = (base + offset) % ACCOUNT_KEYS as u32;
        observed = observed + balance_of(db, key) as i128;
        offset += 1;
    }
    observed
}

/// One credit: adds `delta` to the balance of account `key`, which starts
/// from zero where the table does not hold it yet.
pub fn apply_write(db: &mut HashMap<u32, i64>, key: u32, delta: i64)
    requires
        key < ACCOUNT_KEYS,
        i64::MIN <= balance(old(db)@, key) + delta <= i64::MAX,
    ensures
        final(db)@ == old(db)@.insert(key, (balance(old(db)@, key) + delta) as i64),
        table_total(final(db)@) == table_total(old(db)@) + delta,
{
    let current: i64 = balance_of(db, key);
    proof {
        lemma_credit_changes_total(db@, key, (current + delta) as i64, ACCOUNT_KEYS as nat);
    }
    db.insert(key, current + delta);
}

impl RunMetrics {
    /// Adds what one thread did to the run's counters.
    pub fn absorb(&mut self, stats: ThreadStats)
        requires
            old(self).total_reads + stats.reads <= usize::MAX,
            old(self).total_writes + stats.writes <= usize::MAX,
            i64::MIN <= old(self).read_accumulator + stats.observed_sum <= i64::MAX,
        ensures
            final(self).total_reads == old(self).total_reads + stats.reads,
            final(self).total_writes == old(self).total_writes + stats.writes,
            final(self).read_accumulator == old(self).read_accumulator + stats.observed_sum,
            final(self).final_sum == old(self).final_sum,
    {
        self.total_reads = self.total_reads + stats.reads;
        self.total_writes = self.total_writes + stats.writes;
        self.read_accumulator = self.read_accumulator + stats.observed_sum;
    }
}

} // verus!
