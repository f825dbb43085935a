//! Core engine of a territory-capture arcade game.
//!
//! A player carves a trail across open sea on a bordered grid; closing the
//! trail against land captures the enclosed region, while roaming enemies
//! threaten the run.  The crate holds the board and its flood-fill capture
//! algorithm, actor movement with bounce physics, one-tick-ahead collision
//! prediction, the per-level delay/life-cycle machine, and the hierarchical
//! state stack that sequences the welcome, play and game-over screens.
//! Rendering and input polling are left to the embedding program, which
//! supplies a cell-drawing capability and feeds events in.

pub mod board;
pub mod fill_props;
pub mod game;
pub mod game_over_state;
pub mod geometry;
pub mod play_state;
pub mod reach;
pub mod renderer;
pub mod rng;
pub mod welcome_state;
