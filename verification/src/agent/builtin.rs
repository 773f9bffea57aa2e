//! Simple agents for simulations and tests.

use rand::rngs::SmallRng;
use vstd::prelude::*;

use super::{Agent, Observation, RunConfig, Sight};
use crate::game::action::{Action, LegalActions};
use crate::game::event::{EngineEvent, HandResult};
use crate::game::model;
use crate::game::state::HandId;
use crate::random;

verus! {

/// The one action `action` if `offered`, else none.
pub open spec fn if_offered(offered: bool, action: Action) -> Seq<Action> {
    if offered {
        seq![action]
    } else {
        Seq::empty()
    }
}

/// What a random player chooses among: a free check or else a fold, and then every
/// call, smallest raise and all-in that is open.
pub open spec fn random_choices(legal: LegalActions) -> Seq<Action> {
    seq![
        if legal.can_check {
            Action::Check
        } else {
            Action::Fold
        },
    ] + if_offered(legal.can_call, Action::Call) + if_offered(
        legal.can_raise,
        Action::Raise(legal.min_raise),
    ) + if_offered(legal.all_in_amount > 0, Action::AllIn)
}

/// The choices of a [`RandomAgent`], in the order in which it numbers them.
pub fn choices(la: &LegalActions) -> (choices: Vec<Action>)
    ensures
        choices@ == random_choices(*la),
{
    let mut choices: Vec<Action> = Vec::new();
    // Never fold when a free check is available: it is strictly dominated.
    if !la.can_check {
        choices.push(Action::Fold);
    }
    if la.can_check {
        choices.push(Action::Check);
    }
    if la.can_call {
        choices.push(Action::Call);
    }
    if la.can_raise {
        choices.push(Action::Raise(la.min_raise));
    }
    if la.all_in_amount > 0 {
        choices.push(Action::AllIn);
    }
    assert(choices@ =~= random_choices(*la));
    choices
}

/// Everything that a random player chooses among is open to it.
pub proof fn random_choices_are_legal(legal: LegalActions, i: int)
    requires
        legal.can_raise ==> legal.min_raise <= legal.max_raise,
        0 <= i < random_choices(legal).len(),
    ensures
        legal.allows(random_choices(legal)[i]),
{
}

/// Acts uniformly at random over the legal action set.
pub struct RandomAgent {
    rng: SmallRng,
}

impl RandomAgent {
    /// The generator that makes the next choice.
    pub closed spec fn generator(&self) -> SmallRng {
        self.rng
    }

    pub fn new(seed: u64) -> (agent: RandomAgent)
        ensures
            agent.generator() == random::seeded(seed),
    {
        RandomAgent { rng: random::seeded_rng(seed) }
    }
}

impl Agent for RandomAgent {
    open spec fn stalls(&self) -> nat {
        0
    }

    open spec fn answers(&self, sight: Sight, action: Action, next: &Self) -> bool {
        let choices = random_choices(sight.legal);
        let drawn = random::small_rng_index(self.generator(), (choices.len() - 1) as usize);
        &&& action == choices[drawn.0 as int]
        &&& choices.contains(action)
        &&& next.generator() == drawn.1
    }

    open spec fn hears(&self, event: model::Event, next: &Self) -> bool {
        *next == *self
    }

    open spec fn enters_run(&self, config: RunConfig, next: &Self) -> bool {
        *next == *self
    }

    open spec fn leaves_run(&self, next: &Self) -> bool {
        *next == *self
    }

    open spec fn enters_hand(&self, hand_id: HandId, next: &Self) -> bool {
        *next == *self
    }

    open spec fn leaves_hand(&self, result: model::Outcome, next: &Self) -> bool {
        *next == *self
    }

    fn act(&mut self, obs: &Observation<'_>) -> (action: Action) {
        let choices = choices(&obs.legal_actions);
        let last: usize = choices.len() - 1;
        let i: usize = random::draw_index(&mut self.rng, last);
        choices[i]
    }

    fn on_event(&mut self, event: &EngineEvent) {
    }

    fn on_run_start(&mut self, config: &RunConfig) {
    }

    fn on_run_end(&mut self) {
    }

    fn on_hand_start(&mut self, hand_id: HandId) {
    }

    fn on_hand_end(&mut self, result: &HandResult) {
    }
}

/// Always calls (or checks if free).
pub struct CallingStation;

impl Agent for CallingStation {
    open spec fn stalls(&self) -> nat {
        0
    }

    open spec fn answers(&self, sight: Sight, action: Action, next: &Self) -> bool {
        action == if sight.legal.can_check {
            Action::Check
        } else {
            Action::Call
        }
    }

    open spec fn hears(&self, event: model::Event, next: &Self) -> bool {
        true
    }

    open spec fn enters_run(&self, config: RunConfig, next: &Self) -> bool {
        true
    }

    open spec fn leaves_run(&self, next: &Self) -> bool {
        true
    }

    open spec fn enters_hand(&self, hand_id: HandId, next: &Self) -> bool {
        true
    }

    open spec fn leaves_hand(&self, result: model::Outcome, next: &Self) -> bool {
        true
    }

    fn act(&mut self, obs: &Observation<'_>) -> (action: Action) {
        if obs.legal_actions.can_check {
            Action::Check
        } else {
            Action::Call
        }
    }

    fn on_event(&mut self, event: &EngineEvent) {
    }

    fn on_run_start(&mut self, config: &RunConfig) {
    }

    fn on_run_end(&mut self) {
    }

    fn on_hand_start(&mut self, hand_id: HandId) {
    }

    fn on_hand_end(&mut self, result: &HandResult) {
    }
}

/// Follows a predetermined script of actions. Must not be asked once the script has
/// run out: `act` then panics. Useful for deterministic tests.
pub struct ScriptedAgent {
    script: Vec<Action>,
    cursor: usize,
}

impl ScriptedAgent {
    #[verifier::type_invariant]
    spec fn cursor_in_range(self) -> bool {
        self.cursor <= self.script@.len()
    }

    /// The actions still to come, next one first.
    pub closed spec fn rest(&self) -> Seq<Action> {
        self.script@.skip(self.cursor as int)
    }

    pub fn new(script: Vec<Action>) -> (agent: ScriptedAgent)
        ensures
            agent.rest() == script@,
    {
        let agent = ScriptedAgent { script, cursor: 0 };
        assert(agent.rest() =~= script@);
        agent
    }
}

impl Agent for ScriptedAgent {
    open spec fn stalls(&self) -> nat {
        self.rest().len()
    }

    open spec fn ready(&self) -> bool {
        self.rest().len() > 0
    }

    open spec fn answers(&self, sight: Sight, action: Action, next: &Self) -> bool {
        &&& action == self.rest()[0]
        &&& next.rest() == self.rest().skip(1)
    }

    open spec fn hears(&self, event: model::Event, next: &Self) -> bool {
        *next == *self
    }

    open spec fn enters_run(&self, config: RunConfig, next: &Self) -> bool {
        *next == *self
    }

    open spec fn leaves_run(&self, next: &Self) -> bool {
        *next == *self
    }

    open spec fn enters_hand(&self, hand_id: HandId, next: &Self) -> bool {
        *next == *self
    }

    open spec fn leaves_hand(&self, result: model::Outcome, next: &Self) -> bool {
        *next == *self
    }

    fn act(&mut self, obs: &Observation<'_>) -> (action: Action) {
        proof {
            use_type_invariant(&*self);
        }
        vstd::pervasive::runtime_assert(self.cursor < self.script.len());
        let action = self.script[self.cursor];
        self.cursor = self.cursor + 1;
        assert(self.rest() =~= old(self).rest().skip(1));
        action
    }

    fn on_event(&mut self, event: &EngineEvent) {
    }

    fn on_run_start(&mut self, config: &RunConfig) {
    }

    fn on_run_end(&mut self) {
    }

    fn on_hand_start(&mut self, hand_id: HandId) {
    }

    fn on_hand_end(&mut self, result: &HandResult) {
    }
}

} // verus!
