//! No-limit hold'em: cards and hand ranks, the betting engine and its game tree,
//! simulation and statistics, agents, the client of a live server, and a viewer.
//!
//! What a hand does is described in [`game::hand`] as a function of its setup and of
//! the players' answers. The engine and the tree are proved to follow it, and
//! [`game::laws`] states what holds of every hand.

pub mod abstraction;
pub mod agent;
pub mod cards;
pub mod cli;
pub mod cli_laws;
pub mod client;
pub mod game;
pub mod headless;
pub mod net;
pub mod random;
pub mod report;
pub mod sim;
pub mod solver;
pub mod stats;
pub mod stats_laws;
pub mod text;
pub mod transport;
pub mod viewer;
