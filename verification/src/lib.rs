//! Random mutation of nucleotide sequences at a caller-chosen target count,
//! with optional tracking of the mutated positions, plus the scheduling and
//! naming helpers around it: a balanced work distributor over a file list,
//! elapsed-time formatting, and output-name derivation.

pub mod mutation;
pub mod record;
pub mod rng;
pub mod utils;
