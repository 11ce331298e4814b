//! Deterministic random number generator for turn-time noise.
//!
//! The generator is a SplitMix64 sequence: the state advances by a fixed odd
//! increment and each output is a bit-mixing of the new state. The Gaussian
//! draw built on it works on floating point and lives with the simulator.

use vstd::prelude::*;

verus! {

/// The increment added to the state at each draw.
pub const GOLDEN_GAMMA: u64 = 0x9E3779B97F4A7C15;

/// The state after one draw.
pub open spec fn advance(state: u64) -> u64 {
    vstd::wrapping::u64_specs::wrapping_add(state, GOLDEN_GAMMA)
}

/// The output derived from an advanced state.
pub open spec fn mix(z: u64) -> u64 {
    let a = vstd::wrapping::u64_specs::wrapping_mul(z ^ (z >> 30u64), 0xBF58476D1CE4E5B9u64);
    let b = vstd::wrapping::u64_specs::wrapping_mul(a ^ (a >> 27u64), 0x94D049BB133111EBu64);
    b ^ (b >> 31u64)
}

/// The state after `n` draws from `seed`.
pub open spec fn state_after(seed: u64, n: nat) -> u64
    decreases n,
{
    if n == 0 {
        seed
    } else {
        advance(state_after(seed, (n - 1) as nat))
    }
}

/// Turn-time random number generator.
pub struct TurnRng(u64);

impl View for TurnRng {
    type V = u64;

    closed spec fn view(&self) -> u64 {
        self.0
    }
}

impl TurnRng {
    /// A generator whose state is `seed`.
    pub fn new(seed: u64) -> (r: Self)
        ensures
            r@ == seed,
    {
        Self(seed)
    }

    /// Advance the state and return the next 64 random bits.
    pub fn next_u64(&mut self) -> (r: u64)
        ensures
            final(self)@ == advance(old(self)@),
            r == mix(final(self)@),
    {
        self.0 = self.0.wrapping_add(0x9E3779B97F4A7C15);
        let mut z = self.0;
        z = (z ^ (z >> 30)).wrapping_mul(0xBF58476D1CE4E5B9);
        z = (z ^ (z >> 27)).wrapping_mul(0x94D049BB133111EB);
        z ^ (z >> 31)
    }

    /// The 53 random bits behind a uniform draw in [0, 1): the next output
    /// shifted right by 11. The draw itself is these bits times 2^-53.
    pub fn next_uniform_bits(&mut self) -> (r: u64)
        ensures
            final(self)@ == advance(old(self)@),
            r == mix(final(self)@) >> 11u64,
            r < 0x20_0000_0000_0000u64,
    {
        let x = self.next_u64();
        assert(x >> 11u64 < 0x20_0000_0000_0000u64) by (bit_vector);
        x >> 11
    }
}

/// The state of a generator is a Weyl sequence: after `n` draws it is the
/// seed plus `n` increments, modulo 2^64.
pub proof fn law_state_is_weyl_sequence(seed: u64, n: nat)
    ensures
        state_after(seed, n) as int == (seed as int + n * (GOLDEN_GAMMA as int)) % 0x1_0000_0000_0000_0000,
    decreases n,
{
    let m: int = 0x1_0000_0000_0000_0000;
    if n == 0 {
        assert((seed as int) % m == seed as int) by (nonlinear_arith)
            requires 0 <= seed < m;
    } else {
        law_state_is_weyl_sequence(seed, (n - 1) as nat);
        let prev = state_after(seed, (n - 1) as nat);
        let g = GOLDEN_GAMMA as int;
        let base = seed as int + (n - 1) * g;
        assert(prev as int == base % m);
        assert(advance(prev) as int == (prev as int + g) % m);
        assert(((base % m) + g) % m == (base + g) % m) by {
            vstd::arithmetic::div_mod::lemma_add_mod_noop(base, g, m);
            vstd::arithmetic::div_mod::lemma_mod_twice(g, m);
            assert(g % m == g);
        }
        assert(base + g == seed as int + n * g) by (nonlinear_arith)
            requires base == seed as int + (n - 1) * g;
    }
}

/// What `n` successive draws from a generator seeded with `seed` give: draw
/// `k` is the mix of the state after `k + 1` increments.
pub open spec fn draws(seed: u64, n: nat) -> Seq<u64> {
    Seq::new(n, |k: int| mix(state_after(seed, (k + 1) as nat)))
}

/// The generator depends on its seed alone. Take the states a generator
/// goes through over `n` calls of `next_u64`, starting from `seed`, and the
/// values those calls return, each related to the last as `next_u64`
/// states. Then the states are those after `0..=n` increments and the
/// values are `draws(seed, n)`: two generators with the same seed give the
/// same draws and end in the same state.
pub proof fn law_draws_depend_on_seed_alone(seed: u64, states: Seq<u64>, outs: Seq<u64>)
    requires
        states.len() == outs.len() + 1,
        states[0] == seed,
        forall|k: int| 0 <= k < outs.len() ==> #[trigger] states[k + 1] == advance(states[k]),
        forall|k: int| 0 <= k < outs.len() ==> #[trigger] outs[k] == mix(states[k + 1]),
    ensures
        forall|k: int| 0 <= k < states.len() ==> #[trigger] states[k] == state_after(seed, k as nat),
        outs == draws(seed, outs.len()),
{
    assert forall|k: int| 0 <= k < states.len() implies #[trigger] states[k] == state_after(seed, k as nat) by {
        lemma_states_follow_seed(seed, states, outs.len() as int, k);
    }
    assert forall|k: int| 0 <= k < outs.len() implies outs[k] == draws(seed, outs.len())[k] by {
        assert(states[k + 1] == state_after(seed, (k + 1) as nat));
    }
    assert(outs =~= draws(seed, outs.len()));
}

proof fn lemma_states_follow_seed(seed: u64, states: Seq<u64>, n: int, k: int)
    requires
        states.len() == n + 1,
        states[0] == seed,
        forall|j: int| 0 <= j < n ==> #[trigger] states[j + 1] == advance(states[j]),
        0 <= k <= n,
    ensures
        states[k] == state_after(seed, k as nat),
    decreases k,
{
    if k > 0 {
        lemma_states_follow_seed(seed, states, n, k - 1);
        assert(states[(k - 1) + 1] == advance(states[k - 1]));
    }
}

} // verus!
