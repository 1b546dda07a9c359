//! Rules and state of a multi-player Buckshot Roulette game, verified with Verus.
//!
//! The library holds the game's data model, the per-stage settings, the
//! effects of shots and items, trading, the House's automatic turn, and the
//! format of the running total-credits file. Console prompts, printing and
//! file access are left to the binary around it.

pub mod credits;
pub mod data;
mod rng;
pub mod settings;
pub mod house;
pub mod input;
pub mod items;
pub mod laws;
pub mod rules;
pub mod shells;
pub mod stage;
pub mod text;
pub mod trade;
pub mod turn;
