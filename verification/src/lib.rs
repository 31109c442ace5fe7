//! Verified core of a neuroevolution Pong trainer: reading of trained models
//! logged by the C++ trainer, training settings, fitness bookkeeping, ranking
//! and the plans by which one generation is bred from the last.
use vstd::prelude::*;

pub mod config;
pub mod constants;
pub mod cpp_compat;
pub mod evolution;
pub mod game;
pub mod genome;
pub mod navigation;
pub mod population;
pub mod random;
pub mod text;
pub mod tournament;

verus! {

} // verus!
