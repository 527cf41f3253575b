//! Laws of the stepper's algorithms.
//!
//! The step functions' contracts give the exact one-step transitions; the
//! lemmas here chain them: for each algorithm, iterating its transition long
//! enough sorts the bars by the active direction and leaves a sorted
//! sequence unchanged, and for bubble the two directions produce reversals
//! of one another.

pub mod bubble;
pub mod selection;
pub mod insertion;
