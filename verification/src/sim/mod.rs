//! Running many hands in a row.

pub mod config;
pub mod laws;
pub mod result;
pub mod runner;

pub use config::{SeedMode, SimConfig, StackPolicy};
pub use result::SimResult;
pub use runner::SimRunner;

