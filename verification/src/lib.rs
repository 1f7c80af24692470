//! A 3-dimensional multi-state cellular-automaton engine.
//!
//! The engine keeps a sparse set of live cells in a cubic grid and advances
//! it generation by generation under a configurable rule: a survival mask and
//! a birth mask over neighbor counts, a number of fading states, and a choice
//! of neighbor topology (Moore or von Neumann).

pub mod cell_renderer;
pub mod cell_state;
pub mod neighbors;
pub mod rule;
pub mod sim;
pub mod single_threaded;
pub mod utils;
