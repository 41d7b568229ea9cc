//! The integer skeleton of the episode model and run aggregator: which
//! generator draws each episode consumes, in what order, and how a whole run
//! advances the one shared generator.
//!
//! One episode consumes exactly four draws, in a fixed order; a run of `n`
//! episodes therefore consumes draws `4·e .. 4·e + 4` for episode `e`.  This
//! order and count is the load-bearing part of the reproducibility contract:
//! the mapping from these samples to the real-valued episode fields is
//! floating-point arithmetic and is left to the caller.

use vstd::prelude::*;

use crate::generator::{draw_at, lcg_step, state_after, step_n, unit_bits, Lcg};
use crate::generator::{lemma_draw_determinism, lemma_seed_zero_substitution, lemma_step_n_add};
use crate::generator::ZERO_SEED_STATE;

verus! {

/// The four 53-bit samples one episode consumes, in the order it draws them:
/// noise for the unlock rate, noise for the stability, the uniform sample
/// compared against the objective-completion probability, and noise for the
/// elapsed time.
#[derive(Clone, Copy, PartialEq, Eq, Structural, Debug)]
pub struct EpisodeDraws {
    pub unlock_noise: u64,
    pub stability_noise: u64,
    pub objective_draw: u64,
    pub elapsed_noise: u64,
}

/// The samples drawn by the `e`-th episode (0-based) of a run seeded with
/// `seed`.
pub open spec fn episode_draws_at(seed: u64, e: nat) -> EpisodeDraws {
    EpisodeDraws {
        unlock_noise: unit_bits(draw_at(seed, 4 * e)),
        stability_noise: unit_bits(draw_at(seed, 4 * e + 1)),
        objective_draw: unit_bits(draw_at(seed, 4 * e + 2)),
        elapsed_noise: unit_bits(draw_at(seed, 4 * e + 3)),
    }
}

/// The ordered draw records of a whole run: `n` episodes from seed `seed`.
pub open spec fn run_draws_spec(seed: u64, n: nat) -> Seq<EpisodeDraws> {
    Seq::new(n, |e: int| episode_draws_at(seed, e as nat))
}

/// Every sample an episode consumes fits in 53 bits.
pub open spec fn draws_in_range(d: EpisodeDraws) -> bool {
    &&& d.unlock_noise < 0x20_0000_0000_0000
    &&& d.stability_noise < 0x20_0000_0000_0000
    &&& d.objective_draw < 0x20_0000_0000_0000
    &&& d.elapsed_noise < 0x20_0000_0000_0000
}

/// Consumes the next four draws from the shared generator and hands back the
/// episode's samples; the generator ends exactly four steps further on.
pub fn next_episode_draws(rng: &mut Lcg) -> (r: EpisodeDraws)
    ensures
        final(rng)@ == step_n(old(rng)@, 4),
        r.unlock_noise == unit_bits(step_n(old(rng)@, 1)),
        r.stability_noise == unit_bits(step_n(old(rng)@, 2)),
        r.objective_draw == unit_bits(step_n(old(rng)@, 3)),
        r.elapsed_noise == unit_bits(step_n(old(rng)@, 4)),
        draws_in_range(r),
{
    let ghost s0 = rng@;
    let unlock_noise = rng.next_u53();
    let stability_noise = rng.next_u53();
    let objective_draw = rng.next_u53();
    let elapsed_noise = rng.next_u53();
    proof {
        assert(step_n(s0, 1) == lcg_step(step_n(s0, 0)));
        assert(step_n(s0, 2) == lcg_step(step_n(s0, 1)));
        assert(step_n(s0, 3) == lcg_step(step_n(s0, 2)));
        assert(step_n(s0, 4) == lcg_step(step_n(s0, 3)));
    }
    EpisodeDraws { unlock_noise, stability_noise, objective_draw, elapsed_noise }
}

/// Runs the aggregator's generator-advancement: seeds one generator and
/// collects the draw records of `episodes` episodes in generation order.
pub fn run_draws(seed: u64, episodes: usize) -> (r: Vec<EpisodeDraws>)
    ensures
        r@ == run_draws_spec(seed, episodes as nat),
{
    let mut rng = Lcg::new(seed);
    let mut rows: Vec<EpisodeDraws> = Vec::new();
    let mut e: usize = 0;
    while e < episodes
        invariant
            e <= episodes,
            rng@ == state_after(seed, 4 * e as nat),
            rows@.len() == e as nat,
            forall|k: int| 0 <= k < e ==> rows@[k] == episode_draws_at(seed, k as nat),
        decreases episodes - e,
    {
        let row = next_episode_draws(&mut rng);
        proof {
            lemma_episode_draws_from_state(seed, e as nat);
            assert(row == episode_draws_at(seed, e as nat));
            assert(rng@ == state_after(seed, 4 * (e + 1) as nat)) by {
                lemma_step_n_add(crate::generator::init_state(seed), 4 * e as nat, 4);
            }
        }
        rows.push(row);
        e = e + 1;
    }
    proof {
        assert(rows@ =~= run_draws_spec(seed, episodes as nat));
    }
    rows
}

/// Each of an episode's four draws, counted from the run's start, is the
/// corresponding step taken from the generator state the episode began in.
proof fn lemma_episode_draws_from_state(seed: u64, e: nat)
    ensures
        draw_at(seed, 4 * e) == step_n(state_after(seed, 4 * e), 1),
        draw_at(seed, 4 * e + 1) == step_n(state_after(seed, 4 * e), 2),
        draw_at(seed, 4 * e + 2) == step_n(state_after(seed, 4 * e), 3),
        draw_at(seed, 4 * e + 3) == step_n(state_after(seed, 4 * e), 4),
{
    let init = crate::generator::init_state(seed);
    lemma_step_n_add(init, 4 * e, 1);
    lemma_step_n_add(init, 4 * e, 2);
    lemma_step_n_add(init, 4 * e, 3);
    lemma_step_n_add(init, 4 * e, 4);
}

/// Range-invariant law: every sample of every run fits in 53 bits, so each
/// maps into the unit interval [0,1) under division by 2^53.
pub proof fn lemma_run_draws_in_range(seed: u64, n: nat, e: nat)
    requires
        e < n,
    ensures
        draws_in_range(run_draws_spec(seed, n)[e as int]),
{
    assert(run_draws_spec(seed, n)[e as int] == episode_draws_at(seed, e));
}

/// Determinism law: a run's draw records are a function of the seed and the
/// episode count alone, so two independent runs with equal seeds and counts
/// collect identical sequences.
pub proof fn lemma_run_determinism(seed1: u64, seed2: u64, n: nat)
    requires
        seed1 == seed2,
    ensures
        run_draws_spec(seed1, n) == run_draws_spec(seed2, n),
{
    assert forall|e: int| 0 <= e < n implies run_draws_spec(seed1, n)[e] == run_draws_spec(
        seed2,
        n,
    )[e] by {
        lemma_draw_determinism(seed1, seed2, 4 * e as nat);
        lemma_draw_determinism(seed1, seed2, 4 * e as nat + 1);
        lemma_draw_determinism(seed1, seed2, 4 * e as nat + 2);
        lemma_draw_determinism(seed1, seed2, 4 * e as nat + 3);
    }
    assert(run_draws_spec(seed1, n) =~= run_draws_spec(seed2, n));
}

/// Seed-zero substitution law: a run seeded with zero collects exactly the
/// draw records of a run seeded with the substitute constant.
pub proof fn lemma_run_seed_zero_substitution(n: nat)
    ensures
        run_draws_spec(0, n) == run_draws_spec(ZERO_SEED_STATE, n),
{
    assert forall|e: int| 0 <= e < n implies run_draws_spec(0, n)[e] == run_draws_spec(
        ZERO_SEED_STATE,
        n,
    )[e] by {
        lemma_seed_zero_substitution(4 * e as nat);
        lemma_seed_zero_substitution(4 * e as nat + 1);
        lemma_seed_zero_substitution(4 * e as nat + 2);
        lemma_seed_zero_substitution(4 * e as nat + 3);
    }
    assert(run_draws_spec(0, n) =~= run_draws_spec(ZERO_SEED_STATE, n));
}

} // verus!
