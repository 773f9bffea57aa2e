//! Cards, the shuffled deck and hand strength.

pub mod card;
pub mod deck;
pub mod evaluator;
pub mod hand_rank;
pub mod ranking;

pub use card::{Card, Rank, Suit};
pub use deck::Deck;
pub use evaluator::{HandEvaluator, NaiveEvaluator, RsPokerEvaluator};
pub use hand_rank::{HandCategory, HandRank};
