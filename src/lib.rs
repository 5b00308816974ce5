//! A falling-sand cellular automaton on a fixed rectangular grid.
//!
//! Cells are `Air` or `Sand`. Only the cells that changed in the previous
//! step (the pending changes) are re-examined by the next step, so the cost
//! of a step follows the number of active cells, not the size of the grid.
pub mod model;
pub mod simulation;
pub mod laws;

pub use simulation::{Element, Simulation, Size, StateChange};
pub use model::SimulationView;
