//! Verified core of an evolutionary simulation: 64-bit genomes, lineage
//! bookkeeping, biome labels, the climate grid's neighbourhood structure and
//! the integer side of population census and breeding.
pub mod rng;
pub mod genome;
pub mod lineage;
pub mod biome;
pub mod grid;
pub mod census;
pub mod breeding;
pub mod organism;
pub mod run;
pub mod config;
