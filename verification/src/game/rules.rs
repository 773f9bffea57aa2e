use vstd::prelude::*;

verus! {

#[derive(Clone, Copy, Debug, PartialEq, Eq, Structural)]
pub enum BetVariant {
    NoLimit,
    PotLimit,
    FixedLimit,
}

/// Table configuration. Passed at game construction; immutable during a session.
#[derive(Clone, Copy, Debug, PartialEq, Eq, Structural)]
pub struct BettingRules {
    pub variant: BetVariant,
    pub small_blind: u32,
    pub big_blind: u32,
    /// Posted before blinds (0 = no ante).
    pub ante: u32,
    pub max_players: usize,
}

impl BettingRules {
    pub fn no_limit_holdem(small_blind: u32, big_blind: u32, max_players: usize) -> (r: Self)
        ensures
            r == (BettingRules {
                variant: BetVariant::NoLimit,
                small_blind,
                big_blind,
                ante: 0,
                max_players,
            }),
    {
        BettingRules {
            variant: BetVariant::NoLimit,
            small_blind,
            big_blind,
            ante: 0,
            max_players,
        }
    }
}

} // verus!
