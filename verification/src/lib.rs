//! Active hypothesis elimination.
//!
//! A population of hypotheses is narrowed down by experiments with a boolean
//! outcome. Each round scores the experiments against the population, picks
//! the one that splits it most evenly, asks an oracle for the true outcome,
//! and discards the hypotheses that predicted otherwise.
//!
//! The population is a `Vec` of any type; the library reads a hypothesis only
//! through the prediction function that the caller hands in.

pub mod model;
pub mod scoring;
pub mod selector;
pub mod eliminator;
pub mod driver;

pub use crate::driver::experiment;
pub use crate::eliminator::update;
pub use crate::scoring::{guess_count, guess_count_correlation, guess_fitness};
pub use crate::selector::optimal_guess;
