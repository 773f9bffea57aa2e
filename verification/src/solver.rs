//! The discrete action set of solver policies, and the whole numbers around a
//! training run.

use vstd::prelude::*;

use crate::game::action::Action;
use crate::game::state::SeatIndex;

verus! {

/// Discrete action set for solver policies.
///
/// The set is intentionally minimal: enough to represent preflop trees in early
/// experiments.
#[derive(Clone, Copy, PartialEq, Eq, Debug, Hash, Structural)]
pub enum AbstractAction {
    Fold,
    /// Call when facing a bet; Check when nothing is owed.
    Call,
    /// Pot-sized raise.
    Raise,
    AllIn,
}

impl AbstractAction {
    pub const COUNT: usize = 4;

    pub const ALL: [AbstractAction; 4] = [
        AbstractAction::Fold,
        AbstractAction::Call,
        AbstractAction::Raise,
        AbstractAction::AllIn,
    ];

    /// Position of the action in the set.
    pub open spec fn number(self) -> int {
        match self {
            AbstractAction::Fold => 0,
            AbstractAction::Call => 1,
            AbstractAction::Raise => 2,
            AbstractAction::AllIn => 3,
        }
    }

    /// The action at position `i`.
    pub open spec fn at(i: int) -> Option<AbstractAction> {
        if i == 0 {
            Some(AbstractAction::Fold)
        } else if i == 1 {
            Some(AbstractAction::Call)
        } else if i == 2 {
            Some(AbstractAction::Raise)
        } else if i == 3 {
            Some(AbstractAction::AllIn)
        } else {
            None
        }
    }

    /// The bucket of `action`: a raise of any size is a raise.
    pub open spec fn bucket(action: Action) -> AbstractAction {
        match action {
            Action::Fold => AbstractAction::Fold,
            Action::Check | Action::Call => AbstractAction::Call,
            Action::Raise(_) => AbstractAction::Raise,
            Action::AllIn => AbstractAction::AllIn,
        }
    }

    pub fn index(self) -> (i: usize)
        ensures
            i == self.number(),
            i < AbstractAction::COUNT,
    {
        match self {
            AbstractAction::Fold => 0,
            AbstractAction::Call => 1,
            AbstractAction::Raise => 2,
            AbstractAction::AllIn => 3,
        }
    }

    pub fn from_index(i: usize) -> (a: Option<AbstractAction>)
        ensures
            a == AbstractAction::at(i as int),
            a is Some <==> i < AbstractAction::COUNT,
    {
        match i {
            0 => Some(AbstractAction::Fold),
            1 => Some(AbstractAction::Call),
            2 => Some(AbstractAction::Raise),
            3 => Some(AbstractAction::AllIn),
            _ => None,
        }
    }

    /// Classify a concrete engine action into its abstract bucket.
    ///
    /// Lossy by design: a raise collapses to `Raise` regardless of size. This is
    /// sound for self-play against our own raises, which are always pot-sized.
    pub fn from_action(action: Action) -> (a: AbstractAction)
        ensures
            a == AbstractAction::bucket(action),
    {
        match action {
            Action::Fold => AbstractAction::Fold,
            Action::Check => AbstractAction::Call,
            Action::Call => AbstractAction::Call,
            Action::Raise(_) => AbstractAction::Raise,
            Action::AllIn => AbstractAction::AllIn,
        }
    }
}

/// Positions and actions name each other.
pub proof fn positions_round_trip(a: AbstractAction, i: int)
    ensures
        AbstractAction::at(a.number()) == Some(a),
        AbstractAction::at(i) matches Some(b) ==> b.number() == i,
        0 <= i < AbstractAction::COUNT <==> AbstractAction::at(i) is Some,
{
}

/// What one training iteration is dealt: the two seats take the button in turn, and
/// every iteration has a deck of its own.
pub fn iteration(seed: u64, i: u64) -> (deal: (SeatIndex, u64))
    ensures
        deal.0 == i % 2,
        deal.1 == (seed + i + 1) % 0x1_0000_0000_0000_0000,
{
    let dealer: usize = (i % 2) as usize;
    (dealer, seed.wrapping_add(i).wrapping_add(1))
}

/// What a player nets at the end of a hand: the award, less what was put in.
pub fn net_utility(awards: &Vec<i64>, seat: SeatIndex, total_committed: u32) -> (net: i64)
    requires
        seat < awards@.len(),
        awards@[seat as int] - total_committed >= i64::MIN,
    ensures
        net == awards@[seat as int] - total_committed,
{
    awards[seat] - total_committed as i64
}

/// Buckets keep the kind of an action: only folds are folds, a check is a call of nothing,
/// and the size of a raise does not matter.
pub proof fn buckets_keep_the_kind(action: Action)
    ensures
        AbstractAction::bucket(action) == AbstractAction::Fold <==> action == Action::Fold,
        AbstractAction::bucket(action) == AbstractAction::Call <==> action == Action::Check
            || action == Action::Call,
        AbstractAction::bucket(action) == AbstractAction::Raise <==> action is Raise,
        AbstractAction::bucket(action) == AbstractAction::AllIn <==> action == Action::AllIn,
        AbstractAction::Fold.number() < AbstractAction::Call.number()
            < AbstractAction::Raise.number() < AbstractAction::AllIn.number(),
{
}

} // verus!
