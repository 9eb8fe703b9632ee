//! Deterministic seeding: a SplitMix64-style expander that turns one root
//! seed into a reproducible sequence of sub-seeds, and the pseudo-random
//! stream type that every environment and space draws from.

use rand::SeedableRng;
use rand_chacha::ChaCha8Rng;
use vstd::prelude::*;

verus! {

#[verifier::external_type_specification]
#[verifier::external_body]
pub struct ExChaCha8Rng(ChaCha8Rng);

/// The pseudo-random stream owned by one environment or handed to a space.
pub type RngStream = ChaCha8Rng;

/// The ChaCha8 stream that seeding with `seed` produces.
pub uninterp spec fn seeded_stream(seed: u64) -> ChaCha8Rng;

/// Relies on `rand_chacha::ChaCha8Rng::seed_from_u64` (rand_core's
/// `SeedableRng::seed_from_u64`): a fresh ChaCha8 stream keyed by `seed`,
/// the same stream for the same seed.
#[verifier::external_body]
pub fn rng_from_seed(seed: u64) -> (r: RngStream)
    ensures
        r == seeded_stream(seed),
{
    ChaCha8Rng::seed_from_u64(seed)
}

/// Additive constant of SplitMix64 (the 64-bit golden ratio).
pub const GOLDEN_GAMMA: u64 = 0x9E3779B97F4A7C15;

/// First multiplier of the SplitMix64 finaliser, also used to fold the
/// working value back into the 128-bit state.
pub const MIX_A: u64 = 0xBF58476D1CE4E5B9;

/// Second multiplier of the SplitMix64 finaliser.
pub const MIX_B: u64 = 0x94D049BB133111EB;

/// The state a sequence starts in for a given root seed.
pub open spec fn initial_state(seed: u64) -> u128 {
    (seed as u128) ^ (GOLDEN_GAMMA as u128)
}

/// The working value of one step: the low half of the state plus the gamma.
pub open spec fn working_value(state: u128) -> u64 {
    (state as u64).wrapping_add(GOLDEN_GAMMA)
}

/// The state after one sub-seed has been produced from `state`.
pub open spec fn next_state(state: u128) -> u128 {
    (state ^ (working_value(state) as u128)).wrapping_mul(MIX_A as u128)
}

/// The SplitMix64 finaliser applied to a working value.
pub open spec fn finalize(z: u64) -> u64 {
    let z1 = (z ^ (z >> 30u64)).wrapping_mul(MIX_A);
    let z2 = (z1 ^ (z1 >> 27u64)).wrapping_mul(MIX_B);
    z2 ^ (z2 >> 31u64)
}

/// The sub-seed produced from `state`.
pub open spec fn subseed_at(state: u128) -> u64 {
    finalize(working_value(state))
}

/// The state after `n` sub-seeds have been produced from `state`.
pub open spec fn state_after(state: u128, n: nat) -> u128
    decreases n,
{
    if n == 0 {
        state
    } else {
        state_after(next_state(state), (n - 1) as nat)
    }
}

/// The `n` sub-seeds produced, in order, from `state`.
pub open spec fn subseeds(state: u128, n: nat) -> Seq<u64>
    decreases n,
{
    if n == 0 {
        Seq::empty()
    } else {
        seq![subseed_at(state)] + subseeds(next_state(state), (n - 1) as nat)
    }
}

/// There are exactly `n` of the first `n` sub-seeds.
pub proof fn lemma_subseeds_len(state: u128, n: nat)
    ensures
        subseeds(state, n).len() == n,
    decreases n,
{
    if n > 0 {
        lemma_subseeds_len(next_state(state), (n - 1) as nat);
    }
}

/// Asking for fewer sub-seeds gives a prefix of asking for more: the
/// expansion of a seed is one fixed sequence, whatever the call count.
pub proof fn lemma_subseeds_prefix(state: u128, n: nat, m: nat)
    requires
        n <= m,
    ensures
        subseeds(state, n) == subseeds(state, m).take(n as int),
    decreases n,
{
    lemma_subseeds_len(state, n);
    lemma_subseeds_len(state, m);
    if n > 0 {
        lemma_subseeds_prefix(next_state(state), (n - 1) as nat, (m - 1) as nat);
        lemma_subseeds_len(next_state(state), (m - 1) as nat);
        assert(subseeds(state, n) =~= subseeds(state, m).take(n as int));
    } else {
        assert(subseeds(state, n) =~= subseeds(state, m).take(n as int));
    }
}

/// Expands a 64-bit root seed into a deterministic sequence of sub-seeds.
#[derive(Debug)]
pub struct SeedSequence {
    state: u128,
}

impl View for SeedSequence {
    type V = u128;

    closed spec fn view(&self) -> u128 {
        self.state
    }
}

impl Clone for SeedSequence {
    /// A sequence at the same position.
    fn clone(&self) -> (r: SeedSequence)
        ensures
            r@ == self@,
    {
        SeedSequence { state: self.state }
    }
}

impl SeedSequence {
    /// A sequence positioned at the start of the expansion of `seed`.
    pub fn new(seed: u64) -> (r: SeedSequence)
        ensures
            r@ == initial_state(seed),
    {
        SeedSequence { state: (seed as u128) ^ (GOLDEN_GAMMA as u128) }
    }

    /// The next sub-seed; the sequence advances by one position.
    pub fn next_subseed(&mut self) -> (r: u64)
        ensures
            r == subseed_at(old(self)@),
            final(self)@ == next_state(old(self)@),
    {
        let mut z: u64 = (self.state as u64).wrapping_add(GOLDEN_GAMMA);
        self.state = (self.state ^ (z as u128)).wrapping_mul(MIX_A as u128);
        z = (z ^ (z >> 30u64)).wrapping_mul(MIX_A);
        z = (z ^ (z >> 27u64)).wrapping_mul(MIX_B);
        z ^ (z >> 31u64)
    }

    /// A stream seeded with the next sub-seed; the sequence advances by one.
    pub fn next_rng(&mut self) -> (r: RngStream)
        ensures
            r == seeded_stream(subseed_at(old(self)@)),
            final(self)@ == next_state(old(self)@),
    {
        let s = self.next_subseed();
        rng_from_seed(s)
    }

    /// The next `n` sub-seeds, in order; the sequence advances by `n`.
    pub fn split_n(&mut self, n: usize) -> (r: Vec<u64>)
        ensures
            r@ == subseeds(old(self)@, n as nat),
            r@.len() == n,
            final(self)@ == state_after(old(self)@, n as nat),
    {
        proof {
            lemma_subseeds_len(self.state, n as nat);
        }
        let mut out: Vec<u64> = Vec::with_capacity(n);
        let ghost start = self.state;
        let mut i: usize = 0;
        while i < n
            invariant
                i <= n,
                subseeds(start, n as nat) == out@ + subseeds(self.state, (n - i) as nat),
                state_after(start, n as nat) == state_after(self.state, (n - i) as nat),
            decreases n - i,
        {
            let s = self.next_subseed();
            out.push(s);
            i = i + 1;
        }
        out
    }
}

/// The first `n` sub-seeds of the expansion of `seed`.
pub fn split_n(seed: u64, n: usize) -> (r: Vec<u64>)
    ensures
        r@ == subseeds(initial_state(seed), n as nat),
        r@.len() == n,
{
    let mut ss = SeedSequence::new(seed);
    ss.split_n(n)
}

} // verus!
