//! A single-gene evolutionary optimiser with machine-checked contracts.
//!
//! A candidate solution is one real number, held as a signed fixed-point
//! integer (see [`fixed`]). A population of candidates is bred, mutated and
//! ranked by a caller-supplied fitness function; only the fittest survive
//! each generation.

pub mod fixed;
pub mod individual;
pub mod ranking;
pub mod population;
pub mod evolution;

pub use crate::evolution::{Evolution, StepError};
pub use crate::fixed::{HALF, ONE};
pub use crate::individual::Individual;
pub use crate::population::Population;
pub use crate::ranking::Scored;
