//! Structural and integer core of a foraging-and-evolution simulation.
//!
//! The library holds the parts of the simulation that are exact: fitness
//! bookkeeping, roulette-wheel selection, uniform crossover, chromosome
//! encoding of a brain's weights, population replacement and the generation
//! clock. Numeric payloads (weights, positions) are generic, so the host
//! chooses their representation.
pub mod brain;
pub mod ga;
pub mod simulation;
pub mod world;
