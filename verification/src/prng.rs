//! Deterministic xorshift generator used by the sampling scenario.

use vstd::prelude::*;

verus! {

/// Seed that replaces a zero seed: an all-zero state would never leave zero.
pub const ZERO_SEED_REPLACEMENT: u64 = 0xA511_E9B7_C3D2_1234;

/// Base seed of the sampling scenario; each thread offsets it by its index.
pub const SAMPLING_BASE_SEED: u64 = 0x9E37_79B9_7F4A_7C15;

/// The state a generator starts from for a given seed.
pub open spec fn initial_state(seed: u64) -> u64 {
    if seed == 0 {
        ZERO_SEED_REPLACEMENT
    } else {
        seed
    }
}

/// One xorshift round with the shift triple (13, 7, 17).
pub open spec fn scramble(x: u64) -> u64 {
    let a = x ^ (x << 13);
    let b = a ^ (a >> 7);
    b ^ (b << 17)
}

/// The `n`-th state reached from `state`.
pub open spec fn state_after(state: u64, n: nat) -> u64
    decreases n,
{
    if n == 0 {
        state
    } else {
        scramble(state_after(state, (n - 1) as nat))
    }
}

/// A 64-bit xorshift generator.
pub struct XorShift64 {
    state: u64,
}

impl View for XorShift64 {
    type V = u64;

    closed spec fn view(&self) -> u64 {
        self.state
    }
}

impl XorShift64 {
    /// The generator never holds the zero state.
    #[verifier::type_invariant]
    spec fn nonzero(self) -> bool {
        self.state != 0
    }

    pub fn new(seed: u64) -> (generator: Self)
        ensures
            generator@ == initial_state(seed),
    {
        let state: u64 = if seed == 0 {
            ZERO_SEED_REPLACEMENT
        } else {
            seed
        };
        Self { state }
    }

    pub fn next_u64(&mut self) -> (value: u64)
        ensures
            value == scramble(old(self)@),
            final(self)@ == value,
            value != 0,
    {
        proof {
            use_type_invariant(&*self);
        }
        let mut x: u64 = self.state;
        proof {
            lemma_scramble_keeps_nonzero(x);
        }
        x ^= x << 13;
        x ^= x >> 7;
        x ^= x << 17;
        self.state = x;
        x
    }
}

/// A nonzero state is never mapped to zero: each round is invertible.
pub proof fn lemma_scramble_keeps_nonzero(x: u64)
    requires
        x != 0,
    ensures
        scramble(x) != 0,
{
    let a = x ^ (x << 13);
    let b = a ^ (a >> 7);
    assert(a != 0) by (bit_vector)
        requires
            x != 0,
            a == x ^ (x << 13),
    ;
    assert(b != 0) by (bit_vector)
        requires
            a != 0,
            b == a ^ (a >> 7),
    ;
    assert(b ^ (b << 17) != 0) by (bit_vector)
        requires
            b != 0,
    ;
}

/// Whatever the seed, the generator never reaches the zero state, from which
/// it could not get away.
pub proof fn lemma_states_never_zero(seed: u64, n: nat)
    ensures
        state_after(initial_state(seed), n) != 0,
    decreases n,
{
    if n > 0 {
        lemma_states_never_zero(seed, (n - 1) as nat);
        lemma_scramble_keeps_nonzero(state_after(initial_state(seed), (n - 1) as nat));
    }
}

/// The seed that thread `offset` of the sampling scenario starts from.
pub fn sampling_seed(offset: u64) -> (seed: u64)
    ensures
        seed == SAMPLING_BASE_SEED.wrapping_add(offset),
{
    SAMPLING_BASE_SEED.wrapping_add(offset)
}

} // verus!
