//! Coarser pictures of the game for bots and solvers.

pub mod preflop;

pub use preflop::PreflopClass;
