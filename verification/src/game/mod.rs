//! The rules of one hand: betting, pots, showdown.

pub mod action;
pub mod contest;
pub mod deal;
pub mod ending;
pub mod engine;
pub mod event;
pub mod hand;
pub mod laws;
pub mod lists;
pub mod model;
pub mod play;
pub mod pot_calc;
pub mod progress;
pub mod record;
pub mod repeat;
pub mod rules;
pub mod run;
pub mod scripts;
pub mod shares;
pub mod soundness;
pub mod state;
pub mod telling;
pub mod tree;

pub use action::{Action, ActionError, LegalActions};
pub use engine::Engine;
pub use event::{EngineEvent, EventSink, HandResult, NullSink, SeatOutcome, VecSink};
pub use lists::{Board, PotList, SeatList, SidePots};
pub use pot_calc::{build_showdown_pots, collect_street_bets};
pub use rules::{BetVariant, BettingRules};
pub use state::{
    GameState, HandId, PlayerState, PlayerStatus, Pot, SeatIndex, SeatKind, SidePot, Street,
};
pub use tree::{GameTree, NodeKind, OwnedObservation};
