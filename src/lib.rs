//! Simulation of the treasure-sphere reward drops of a dungeon run.
//!
//! A run has six spheres, each tinted with a color; every sphere yields a
//! fixed number of distinct items drawn from a catalog of two hundred. The
//! colors come from a shuffle of eight weighted slots, the items from
//! shuffles of the whole catalog, and one seeded random stream drives a
//! batch of runs so that a seed always reproduces the same batch.

pub mod colors;
pub mod laws;
pub mod loot;
pub mod run;
pub mod sampler;
pub mod sequence;
pub mod stream;

pub use colors::Colors;
pub use loot::{
    exclusion_threshold, is_item_in_ts_pos, loot_counts, loot_sum, ConfigError, IT_COUNT,
    IT_FOUND_MAX_PER_TS, TS_COUNT,
};
pub use run::{Orchestrator, Run};
pub use sampler::{draw_items, generate_it, reshuffle_count};
pub use sequence::{colors_from_slots, generate_ts, SLOT_COUNT};
