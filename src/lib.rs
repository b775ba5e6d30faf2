//! A generic state-space search engine for deterministic, finite planning
//! problems of the river-crossing family, and the puzzles that plug into it:
//! humans and zombies, bridge and torch, wolf, goat and cabbage.
pub mod bridge_and_torch;
pub mod history;
pub mod humans_and_zombies;
pub mod problems;
pub mod search;
pub mod strategies;
