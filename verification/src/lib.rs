//! Tree-based genetic programming for symbolic regression, with a
//! geometric-semantic variant and ring migration between sub-populations.
//!
//! Scalars are IEEE 754 binary32 values carried as their `u32` bit patterns,
//! so that every rule of the engine can be stated and checked over plain
//! integers; the arithmetic itself is done by a deterministic software
//! floating-point implementation behind a small set of trusted wrappers.

pub mod data;
pub mod encoding;
pub mod errors;
pub mod multi_gp;
pub mod node;
pub mod population;
pub mod fbits;
pub mod gp;
pub mod individual;
pub mod rng;
pub mod utils;
pub mod variation;
