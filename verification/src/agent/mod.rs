//! What agents see and how the engine speaks to them.

pub mod alike;
pub mod builtin;
pub mod human;
pub mod persona_laws;
pub mod personas;

use vstd::prelude::*;

use crate::cards::Card;
use crate::game::action::{Action, LegalActions};
use crate::game::event::{EngineEvent, HandResult};
use crate::game::model;
use crate::game::state::{HandId, Pot, SeatIndex, Street};

verus! {

/// What an agent is allowed to see on each decision.
pub struct Observation<'a> {
    pub hole_cards: [Card; 2],
    pub board: &'a [Card],
    pub pot: &'a Pot,
    pub legal_actions: LegalActions,
    pub players: &'a [PublicPlayerState],
    pub street: Street,
    pub position: SeatIndex,
    /// Button position. Combined with `position` this yields a rotation-invariant
    /// relative position (`(position - dealer) mod n`) which is what solvers key on.
    pub dealer: SeatIndex,
}

/// Publicly visible per-player state (no hole cards).
#[derive(Clone, Copy, Debug, PartialEq, Eq, Structural)]
pub struct PublicPlayerState {
    pub seat: SeatIndex,
    pub stack: u32,
    pub bet_this_street: u32,
    pub is_folded: bool,
    pub is_all_in: bool,
}

/// Configuration available to agents at the start of a run.
#[derive(Clone, Copy, Debug, PartialEq, Eq, Structural)]
pub struct RunConfig {
    pub small_blind: u32,
    pub big_blind: u32,
    pub max_players: usize,
}

/// What one observation shows.
#[verifier::ext_equal]
pub struct Sight {
    pub hole: (Card, Card),
    pub board: Seq<Card>,
    pub main: int,
    pub side: Seq<(u32, Seq<usize>)>,
    pub legal: LegalActions,
    pub players: Seq<PublicPlayerState>,
    pub street: Street,
    pub position: usize,
    pub dealer: usize,
}

impl Sight {
    /// The player's two cards, then the board.
    pub open spec fn cards(self) -> Seq<Card> {
        seq![self.hole.0, self.hole.1] + self.board
    }

    /// The cards that are seen are different cards.
    pub open spec fn fair(self) -> bool {
        self.cards().no_duplicates()
    }
}

impl<'a> View for Observation<'a> {
    type V = Sight;

    open spec fn view(&self) -> Sight {
        Sight {
            hole: (self.hole_cards@[0], self.hole_cards@[1]),
            board: self.board@,
            main: self.pot.main as int,
            side: self.pot.side@,
            legal: self.legal_actions,
            players: self.players@,
            street: self.street,
            position: self.position,
            dealer: self.dealer,
        }
    }
}

/// The only contract an AI must satisfy.
///
/// Each method comes with a relation that says what the call can do to the agent,
/// so that a hand can be described as the exact list of calls that it makes. An
/// agent that gives no relation of its own may do anything.
pub trait Agent: Send {
    /// How many more times the agent may check although it owes chips. Such an
    /// answer settles nothing: the agent is asked again. Never, unless said
    /// otherwise.
    open spec fn stalls(&self) -> nat {
        0
    }

    /// The agent can be asked. Always, unless said otherwise.
    open spec fn ready(&self) -> bool {
        true
    }

    /// Seeing `sight`, the agent can answer `action` and become `next`.
    open spec fn answers(&self, sight: Sight, action: Action, next: &Self) -> bool {
        true
    }

    /// Hearing of `event` can turn the agent into `next`.
    open spec fn hears(&self, event: model::Event, next: &Self) -> bool {
        true
    }

    /// The start of a run can turn the agent into `next`.
    open spec fn enters_run(&self, config: RunConfig, next: &Self) -> bool {
        true
    }

    /// The end of a run can turn the agent into `next`.
    open spec fn leaves_run(&self, next: &Self) -> bool {
        true
    }

    /// The start of a hand can turn the agent into `next`.
    open spec fn enters_hand(&self, hand_id: HandId, next: &Self) -> bool {
        true
    }

    /// The end of a hand can turn the agent into `next`.
    open spec fn leaves_hand(&self, result: model::Outcome, next: &Self) -> bool {
        true
    }

    fn act(&mut self, obs: &Observation<'_>) -> (action: Action)
        requires
            obs@.fair(),
            old(self).ready(),
        ensures
            old(self).answers(obs@, action, final(self)),
            final(self).stalls() <= old(self).stalls(),
            action == Action::Check && !obs.legal_actions.can_check ==> final(self).stalls()
                < old(self).stalls(),
    ;

    /// Called for every action and every deal of board cards.
    fn on_event(&mut self, event: &EngineEvent)
        ensures
            old(self).hears(event@, final(self)),
            final(self).stalls() <= old(self).stalls(),
    ;

    /// Called once before the first hand.
    fn on_run_start(&mut self, config: &RunConfig)
        ensures
            old(self).enters_run(*config, final(self)),
    ;

    /// Called after the last hand.
    fn on_run_end(&mut self)
        ensures
            old(self).leaves_run(final(self)),
    ;

    /// Called before each hand.
    fn on_hand_start(&mut self, hand_id: HandId)
        ensures
            old(self).enters_hand(hand_id, final(self)),
    ;

    /// Called after each hand with the full outcome.
    fn on_hand_end(&mut self, result: &HandResult)
        ensures
            old(self).leaves_hand(result@, final(self)),
    ;
}

/// One call that a hand makes on the agents.
#[verifier::ext_equal]
pub enum Call {
    /// All agents are told that a hand starts.
    Start { hand_id: u64 },
    /// One agent is asked; this is the answer.
    Ask { seat: int, sight: Sight, action: Action },
    /// All agents hear of an event.
    Tell { event: model::Event },
    /// All agents are told how the hand ended.
    End { result: model::Outcome },
}

/// `call` can turn the agents from `before` into `after`.
pub open spec fn called<A: Agent>(before: Seq<A>, call: Call, after: Seq<A>) -> bool {
    &&& before.len() == after.len()
    &&& match call {
        Call::Start { hand_id } => forall|i: int|
            0 <= i < before.len() ==> (#[trigger] before[i]).enters_hand(hand_id, &after[i]),
        Call::Ask { seat, sight, action } => {
            &&& 0 <= seat < before.len()
            &&& before[seat].answers(sight, action, &after[seat])
            &&& forall|i: int|
                0 <= i < before.len() && i != seat ==> #[trigger] after[i] == before[i]
        },
        Call::Tell { event } => forall|i: int|
            0 <= i < before.len() ==> (#[trigger] before[i]).hears(event, &after[i]),
        Call::End { result } => forall|i: int|
            0 <= i < before.len() ==> (#[trigger] before[i]).leaves_hand(result, &after[i]),
    }
}

/// `calls`, one after the other, can turn the agents from `before` into `after`.
pub open spec fn all_called<A: Agent>(before: Seq<A>, calls: Seq<Call>, after: Seq<A>) -> bool
    decreases calls.len(),
{
    if calls.len() == 0 {
        before == after
    } else {
        exists|mid: Seq<A>|
            all_called(before, calls.drop_last(), mid) && #[trigger] called(
                mid,
                calls.last(),
                after,
            )
    }
}

/// One more call at the end.
pub proof fn called_once_more<A: Agent>(
    before: Seq<A>,
    calls: Seq<Call>,
    mid: Seq<A>,
    call: Call,
    after: Seq<A>,
)
    requires
        all_called(before, calls, mid),
        called(mid, call, after),
    ensures
        all_called(before, calls.push(call), after),
{
    assert(calls.push(call).drop_last() =~= calls);
    assert(called(mid, calls.push(call).last(), after));
}

/// Two runs of calls, one after the other.
pub proof fn called_in_turn<A: Agent>(
    before: Seq<A>,
    first: Seq<Call>,
    mid: Seq<A>,
    second: Seq<Call>,
    after: Seq<A>,
)
    requires
        all_called(before, first, mid),
        all_called(mid, second, after),
    ensures
        all_called(before, first + second, after),
    decreases second.len(),
{
    if second.len() == 0 {
        assert(first + second =~= first);
    } else {
        let last = choose|last: Seq<A>|
            all_called(mid, second.drop_last(), last) && #[trigger] called(
                last,
                second.last(),
                after,
            );
        called_in_turn(before, first, mid, second.drop_last(), last);
        assert((first + second).drop_last() =~= first + second.drop_last());
        assert(called(last, (first + second).last(), after));
    }
}

/// Calls neither add nor remove agents.
pub proof fn calls_keep_agents<A: Agent>(before: Seq<A>, calls: Seq<Call>, after: Seq<A>)
    requires
        all_called(before, calls, after),
    ensures
        before.len() == after.len(),
    decreases calls.len(),
{
    if calls.len() > 0 {
        let mid = choose|mid: Seq<A>|
            all_called(before, calls.drop_last(), mid) && #[trigger] called(
                mid,
                calls.last(),
                after,
            );
        calls_keep_agents(before, calls.drop_last(), mid);
    }
}

/// How often the agents together may still check although they owe chips.
pub open spec fn all_stalls<A: Agent>(agents: Seq<A>) -> nat
    decreases agents.len(),
{
    if agents.len() == 0 {
        0
    } else {
        all_stalls(agents.drop_last()) + agents.last().stalls()
    }
}

/// Agents that stall no more one by one stall no more together.
pub proof fn stalls_no_more<A: Agent>(before: Seq<A>, after: Seq<A>)
    requires
        before.len() == after.len(),
        forall|i: int|
            0 <= i < before.len() ==> (#[trigger] after[i]).stalls() <= before[i].stalls(),
    ensures
        all_stalls(after) <= all_stalls(before),
    decreases before.len(),
{
    if before.len() > 0 {
        assert(after[after.len() - 1].stalls() <= before[before.len() - 1].stalls());
        assert forall|i: int| 0 <= i < before.len() - 1 implies (
        #[trigger] after.drop_last()[i]).stalls() <= before.drop_last()[i].stalls() by {
            assert(after[i].stalls() <= before[i].stalls());
        }
        stalls_no_more(before.drop_last(), after.drop_last());
    }
}

/// If one of them stalls less and the others no more, they stall less together.
pub proof fn stalls_less<A: Agent>(before: Seq<A>, after: Seq<A>, seat: int)
    requires
        before.len() == after.len(),
        0 <= seat < before.len(),
        forall|i: int|
            0 <= i < before.len() ==> (#[trigger] after[i]).stalls() <= before[i].stalls(),
        after[seat].stalls() < before[seat].stalls(),
    ensures
        all_stalls(after) < all_stalls(before),
    decreases before.len(),
{
    assert(after[after.len() - 1].stalls() <= before[before.len() - 1].stalls());
    assert forall|i: int| 0 <= i < before.len() - 1 implies (
    #[trigger] after.drop_last()[i]).stalls() <= before.drop_last()[i].stalls() by {
        assert(after[i].stalls() <= before[i].stalls());
    }
    if seat == before.len() - 1 {
        stalls_no_more(before.drop_last(), after.drop_last());
    } else {
        assert(after.drop_last()[seat] == after[seat]);
        stalls_less(before.drop_last(), after.drop_last(), seat);
    }
}

} // verus!
