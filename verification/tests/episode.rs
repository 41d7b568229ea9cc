use sim_core::episode::{run_draws, EpisodeDraws};
use sim_core::generator::Lcg;

const ZERO_SEED_STATE: u64 = 0x9e3779b97f4a7c15;
const TWO_POW_53: u64 = 9007199254740992;

fn unit(bits: u64) -> f64 {
    bits as f64 / TWO_POW_53 as f64
}

fn range_from(bits: u64, lo: f64, hi: f64) -> f64 {
    lo + (hi - lo) * unit(bits)
}

fn clamp(v: f64, lo: f64, hi: f64) -> f64 {
    if v < lo {
        lo
    } else if v > hi {
        hi
    } else {
        v
    }
}

struct Episode {
    unlock_rate: f64,
    objective_complete: bool,
    stability: f64,
    elapsed_s: f64,
}

/// The documented mapping from one record of draws and the four traits to an
/// episode.
fn episode_from_draws(d: &EpisodeDraws, aggression: f64, greed: f64, safety: f64, focus: f64) -> Episode {
    let noise1 = range_from(d.unlock_noise, -0.08, 0.08);
    let unlock_rate = clamp(
        0.42 * aggression + 0.36 * greed + 0.20 * focus - 0.10 * (safety - 0.72).max(0.0) + noise1,
        0.0,
        1.0,
    );
    let noise2 = range_from(d.stability_noise, -0.06, 0.06);
    let stability = clamp(
        0.62 * safety + 0.22 * focus - 0.12 * (aggression - greed).abs()
            - 0.08 * (aggression - 0.82).max(0.0)
            + noise2,
        0.0,
        1.0,
    );
    let objective_p = clamp(0.18 + 0.58 * unlock_rate + 0.24 * stability, 0.01, 0.99);
    let objective_complete = unit(d.objective_draw) < objective_p;
    let noise3 = range_from(d.elapsed_noise, -0.08, 0.05);
    let mut elapsed_s = 1800.0 * (1.0 - 0.65 * unlock_rate);
    elapsed_s *= 1.0 + noise3;
    let elapsed_s = clamp(elapsed_s, 80.0, 2000.0);
    Episode { unlock_rate, objective_complete, stability, elapsed_s }
}

#[test]
fn run_collects_draws_in_generation_order() {
    let rows = run_draws(1, 2);
    assert_eq!(rows.len(), 2);
    let mut rng = Lcg::new(1);
    for row in &rows {
        assert_eq!(row.unlock_noise, rng.next_u53());
        assert_eq!(row.stability_noise, rng.next_u53());
        assert_eq!(row.objective_draw, rng.next_u53());
        assert_eq!(row.elapsed_noise, rng.next_u53());
    }
}

#[test]
fn run_draws_concrete_seed_one() {
    let rows = run_draws(1, 1);
    assert_eq!(rows[0].unlock_noise, 3811929328484256);
    assert_eq!(rows[0].stability_noise, 4588334339901763);
    assert_eq!(rows[0].objective_draw, 5839902250111733);
    assert_eq!(rows[0].elapsed_noise, 3448526845653610);
}

#[test]
fn run_determinism() {
    assert_eq!(run_draws(9, 5), run_draws(9, 5));
    assert_eq!(run_draws(0xdeadbeef, 32), run_draws(0xdeadbeef, 32));
}

#[test]
fn run_seed_zero_substitution() {
    assert_eq!(run_draws(0, 8), run_draws(ZERO_SEED_STATE, 8));
}

#[test]
fn scenario_seed_one_single_episode() {
    let rows = run_draws(1, 1);
    let ep = episode_from_draws(&rows[0], 0.5, 0.5, 0.5, 0.5);
    assert_eq!(format!("{:.6}", ep.unlock_rate), "0.477713");
    assert_eq!(format!("{:.6}", ep.stability), "0.421129");
    assert!(!ep.objective_complete);
    assert_eq!(format!("{:.6}", ep.elapsed_s), "1203.560320");
}

#[test]
fn episode_fields_stay_in_documented_ranges() {
    let rows = run_draws(123, 200);
    for row in &rows {
        let ep = episode_from_draws(row, 0.9, 0.1, 0.95, 0.3);
        assert!(0.0 <= ep.unlock_rate && ep.unlock_rate <= 1.0);
        assert!(0.0 <= ep.stability && ep.stability <= 1.0);
        assert!(80.0 <= ep.elapsed_s && ep.elapsed_s <= 2000.0);
    }
}

#[test]
fn aggregate_matches_per_episode_fields() {
    let rows = run_draws(77, 40);
    let episodes: Vec<Episode> =
        rows.iter().map(|row| episode_from_draws(row, 0.5, 0.5, 0.5, 0.5)).collect();
    let n = episodes.len() as f64;
    let completed = episodes.iter().filter(|e| e.objective_complete).count();
    let objective_rate: f64 = episodes
        .iter()
        .map(|e| if e.objective_complete { 1.0 } else { 0.0 })
        .sum::<f64>()
        / n;
    let unlock_rate: f64 = episodes.iter().map(|e| e.unlock_rate).sum::<f64>() / n;
    let stability_rate: f64 = episodes.iter().map(|e| e.stability).sum::<f64>() / n;
    assert_eq!(objective_rate, completed as f64 / n);
    assert!(0.0 <= objective_rate && objective_rate <= 1.0);
    assert!(0.0 <= unlock_rate && unlock_rate <= 1.0);
    assert!(0.0 <= stability_rate && stability_rate <= 1.0);
}
