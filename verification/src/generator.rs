//! The deterministic pseudo-random generator: a 64-bit linear congruential
//! state machine that supplies every random draw of a simulation run.

use vstd::prelude::*;

verus! {

/// Multiplier of the linear congruential state transition.
pub const MULTIPLIER: u64 = 6364136223846793005;

/// Increment of the linear congruential state transition.
pub const INCREMENT: u64 = 1442695040888963407;

/// State substituted for a zero seed, which would otherwise start the
/// generator close to the degenerate all-zero orbit of the transition.
pub const ZERO_SEED_STATE: u64 = 0x9e3779b97f4a7c15;

/// One transition step: `state * MULTIPLIER + INCREMENT`, modulo 2^64.
pub open spec fn lcg_step(s: u64) -> u64 {
    (((s as int) * (MULTIPLIER as int) + (INCREMENT as int)) % 0x1_0000_0000_0000_0000) as u64
}

/// The state a generator starts from: a zero seed is replaced by
/// `ZERO_SEED_STATE`, every other seed is used directly.
pub open spec fn init_state(seed: u64) -> u64 {
    if seed == 0 {
        ZERO_SEED_STATE
    } else {
        seed
    }
}

/// The state reached from `s` after `n` transition steps.
pub open spec fn step_n(s: u64, n: nat) -> u64
    decreases n,
{
    if n == 0 {
        s
    } else {
        lcg_step(step_n(s, (n - 1) as nat))
    }
}

/// The state of a generator seeded with `seed` after `n` draws.
pub open spec fn state_after(seed: u64, n: nat) -> u64 {
    step_n(init_state(seed), n)
}

/// The `i`-th 64-bit draw (0-based) of a generator seeded with `seed`.
pub open spec fn draw_at(seed: u64, i: nat) -> u64 {
    state_after(seed, i + 1)
}

/// The 53-bit sample taken from a 64-bit draw: its top 53 bits, the integer
/// numerator of a uniform sample in [0,1) with denominator 2^53.
pub open spec fn unit_bits(d: u64) -> u64 {
    d / 0x800
}

/// Taking `n + m` steps is taking `n` steps and then `m` more.
pub proof fn lemma_step_n_add(s: u64, n: nat, m: nat)
    ensures
        step_n(s, n + m) == step_n(step_n(s, n), m),
    decreases m,
{
    if m > 0 {
        lemma_step_n_add(s, n, (m - 1) as nat);
    }
}

/// Determinism law: the draw sequence is a function of the seed alone, so two
/// independent runs with equal seeds see equal draws at every position.
pub proof fn lemma_draw_determinism(seed1: u64, seed2: u64, i: nat)
    requires
        seed1 == seed2,
    ensures
        draw_at(seed1, i) == draw_at(seed2, i),
{
}

/// Seed-zero substitution law: a zero seed draws exactly the sequence of the
/// substitute constant.
pub proof fn lemma_seed_zero_substitution(i: nat)
    ensures
        draw_at(0, i) == draw_at(ZERO_SEED_STATE, i),
{
    assert(init_state(0) == init_state(ZERO_SEED_STATE));
}

/// The deterministic generator.  Its view is its current 64-bit state; every
/// draw advances the state in place, so all draws of a run form one
/// order-dependent sequence.
pub struct Lcg {
    state: u64,
}

impl View for Lcg {
    type V = u64;

    closed spec fn view(&self) -> u64 {
        self.state
    }
}

impl Lcg {
    /// Seeds a generator, substituting `ZERO_SEED_STATE` for a zero seed.
    pub fn new(seed: u64) -> (r: Self)
        ensures
            r@ == init_state(seed),
    {
        let initial = if seed == 0 {
            ZERO_SEED_STATE
        } else {
            seed
        };
        Self { state: initial }
    }

    /// Advances the state one transition step and returns the new state.
    pub fn next_u64(&mut self) -> (r: u64)
        ensures
            final(self)@ == lcg_step(old(self)@),
            r == lcg_step(old(self)@),
    {
        let product = self.state.wrapping_mul(MULTIPLIER);
        let next = product.wrapping_add(INCREMENT);
        proof {
            lemma_wrapping_step(self.state, product, next);
        }
        self.state = next;
        next
    }

    /// Advances one step and returns the top 53 bits of the draw.
    pub fn next_u53(&mut self) -> (r: u64)
        ensures
            final(self)@ == lcg_step(old(self)@),
            r == unit_bits(lcg_step(old(self)@)),
            r < 0x20_0000_0000_0000,
    {
        let d = self.next_u64();
        proof {
            assert(d >> 11u64 == d / 0x800 && d / 0x800 < 0x20_0000_0000_0000) by (bit_vector);
        }
        d >> 11u64
    }
}

/// The two wrapping operations of `next_u64` compose to one step modulo 2^64.
proof fn lemma_wrapping_step(s: u64, product: u64, next: u64)
    requires
        product == vstd::wrapping::u64_specs::wrapping_mul(s, MULTIPLIER),
        next == vstd::wrapping::u64_specs::wrapping_add(product, INCREMENT),
    ensures
        next == lcg_step(s),
{
    let r = 0x1_0000_0000_0000_0000int;
    let p = (s as int) * (MULTIPLIER as int);
    vstd::arithmetic::div_mod::lemma_mod_bound(p, r);
    assert(product == p % r);
    vstd::arithmetic::div_mod::lemma_mod_bound(p + (INCREMENT as int), r);
    vstd::arithmetic::div_mod::lemma_add_mod_noop(p, INCREMENT as int, r);
    vstd::arithmetic::div_mod::lemma_small_mod(INCREMENT as nat, r as nat);
    assert((p % r + INCREMENT as int) % r == (p + INCREMENT as int) % r);
    if product + INCREMENT > u64::MAX {
        vstd::arithmetic::div_mod::lemma_mod_sub_multiples_vanish(p % r + INCREMENT as int, r);
        vstd::arithmetic::div_mod::lemma_small_mod((p % r + INCREMENT as int - r) as nat, r as nat);
    } else {
        vstd::arithmetic::div_mod::lemma_small_mod((p % r + INCREMENT as int) as nat, r as nat);
    }
}

} // verus!
