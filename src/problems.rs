//! The puzzle models that plug into the search engine.
pub mod humans_and_zombies;
pub mod wolf_goat_cabbage;
