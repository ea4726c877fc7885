//! A generational evolutionary engine: genomes are bred by crossover, mutated,
//! scored by a caller's fitness function and cut back to the fittest, together
//! with the grid game in which genomes can prove themselves.

pub mod dna;
pub mod game;
pub mod parallel;
pub mod population;
pub mod random;
pub mod selection;
pub mod snake;

pub use dna::Dna;
pub use population::{Population, PopulationParams, StepError};
