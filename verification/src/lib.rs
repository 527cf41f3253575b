//! Step-wise sorting state machine for an array-sorting visualizer.
//!
//! The core type, [`stepper::SortStepper`], owns a sequence of bars (signed
//! integer heights) together with per-algorithm progress markers, and advances
//! the selected sorting algorithm by one bounded unit of work per call, so a
//! caller can pause, single-step, re-randomize and resize the data at any time
//! without losing consistency.

pub mod order;
pub mod stepper;
pub mod laws;
mod random;
