//! Deterministic episode-simulation core.
//!
//! A simulated agent is described by four bounded traits; a run draws from a
//! seeded deterministic generator to produce a sequence of episode outcome
//! records.  Everything that decides the integer draws of a run — the
//! generator's state transition, the fixed order and count of the draws each
//! episode consumes, and the command-line flag scanning with its
//! default-substitution policy — lives here with proved contracts.  Mapping
//! the draws into real-valued episode fields is floating-point arithmetic and
//! is left to the caller.

pub mod episode;
pub mod flags;
pub mod generator;
