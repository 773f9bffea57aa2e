//! Driving a hand to its end against agents.

use vstd::prelude::*;

use crate::agent;
use crate::agent::{Agent, Call, Observation};
use crate::cards::{deck, Card, Deck, HandEvaluator};
use crate::game::action::Action;
use crate::game::ending;
use crate::game::engine;
use crate::game::engine::Engine;
use crate::game::event;
use crate::game::event::{EngineEvent, EventSink, HandResult};
use crate::game::hand;
use crate::game::hand::{Next, Node, Phase, Setup, CHIP_LIMIT};
use crate::game::model;
use crate::game::model::{Event, Table};
use crate::game::pot_calc;
use crate::game::progress;
use crate::game::soundness;
use crate::game::state::{GameState, HandId, SeatIndex, SeatKind, Street};
use crate::game::tree;

verus! {

/// Tells every agent of `event`.
fn tell_all<A: Agent>(agents: &mut Vec<A>, event: &EngineEvent)
    ensures
        agent::called(old(agents)@, Call::Tell { event: event@ }, final(agents)@),
        agent::all_stalls(final(agents)@) <= agent::all_stalls(old(agents)@),
        forall|i: int|
            0 <= i < old(agents)@.len() ==> (#[trigger] final(agents)@[i]).stalls()
                <= old(agents)@[i].stalls(),
{
    let ghost before = agents@;
    let mut i: usize = 0;
    while i < agents.len()
        invariant
            i <= agents@.len() == before.len(),
            forall|k: int| i <= k < before.len() ==> #[trigger] agents@[k] == before[k],
            forall|k: int|
                0 <= k < i ==> (#[trigger] before[k]).hears(event@, &agents@[k])
                    && agents@[k].stalls() <= before[k].stalls(),
        decreases agents@.len() - i,
    {
        assert(agents@[i as int] == before[i as int]);
        agents[i].on_event(event);
        i = i + 1;
    }
    proof {
        assert forall|k: int| 0 <= k < before.len() implies (#[trigger] agents@[k]).stalls()
            <= before[k].stalls() by {
            assert(before[k].hears(event@, &agents@[k]));
        }
        agent::stalls_no_more(before, agents@);
    }
}

/// Tells every agent that a hand starts.
fn start_all<A: Agent>(agents: &mut Vec<A>, hand_id: HandId)
    ensures
        agent::called(old(agents)@, Call::Start { hand_id }, final(agents)@),
{
    let ghost before = agents@;
    let mut i: usize = 0;
    while i < agents.len()
        invariant
            i <= agents@.len() == before.len(),
            forall|k: int| i <= k < before.len() ==> #[trigger] agents@[k] == before[k],
            forall|k: int|
                0 <= k < i ==> (#[trigger] before[k]).enters_hand(hand_id, &agents@[k]),
        decreases agents@.len() - i,
    {
        assert(agents@[i as int] == before[i as int]);
        agents[i].on_hand_start(hand_id);
        i = i + 1;
    }
}

/// Tells every agent how the hand ended.
fn end_all<A: Agent>(agents: &mut Vec<A>, result: &HandResult)
    ensures
        agent::called(old(agents)@, Call::End { result: result@ }, final(agents)@),
{
    let ghost before = agents@;
    let mut i: usize = 0;
    while i < agents.len()
        invariant
            i <= agents@.len() == before.len(),
            forall|k: int| i <= k < before.len() ==> #[trigger] agents@[k] == before[k],
            forall|k: int|
                0 <= k < i ==> (#[trigger] before[k]).leaves_hand(result@, &agents@[k]),
        decreases agents@.len() - i,
    {
        assert(agents@[i as int] == before[i as int]);
        agents[i].on_hand_end(result);
        i = i + 1;
    }
}


/// Where a hand came from: its setup, the agents as they were before it, and the
/// sink as it was before it.
pub struct Origin<A, S> {
    pub setup: Setup,
    pub agents: Seq<A>,
    pub sink: S,
}

/// Sink and agents have been told all that `p` says, and nothing else.
pub open spec fn told<A: Agent, S: EventSink>(
    o: Origin<A, S>,
    p: hand::Progress,
    agents: Seq<A>,
    sink: S,
) -> bool {
    &&& event::received(o.sink, p.events, sink)
    &&& agent::all_called(
        o.agents,
        seq![Call::Start { hand_id: o.setup.hand_id }] + p.calls,
        agents,
    )
}

/// After `answers` somebody is asked, and the calls so far can have turned the agents
/// from `agents` into `now`.
pub open spec fn asked<A: Agent, E: HandEvaluator>(
    s: Setup,
    e: E,
    agents: Seq<A>,
    answers: Seq<Action>,
    now: Seq<A>,
) -> bool {
    let p = hand::played(s, e, answers);
    &&& hand::answers_fit(s, e, answers)
    &&& p.node.phase is Decision
    &&& agent::all_called(agents, seq![Call::Start { hand_id: s.hand_id }] + p.calls, now)
}

/// Whatever the agents answer, whoever is asked in the hand can be asked.
pub open spec fn never_stuck<A: Agent, E: HandEvaluator>(s: Setup, e: E, agents: Seq<A>) -> bool {
    forall|answers: Seq<Action>, now: Seq<A>| #[trigger]
        asked(s, e, agents, answers, now) ==> now[hand::played(
            s,
            e,
            answers,
        ).node.phase->seat].ready()
}

/// The hand just after the last of `answers` was carried out, before anything else.
pub open spec fn just_played<E: HandEvaluator>(s: Setup, e: E, answers: Seq<Action>) -> hand::Progress {
    let before = hand::played(s, e, answers.drop_last());
    hand::Progress {
        node: hand::acted(before.node, answers.last()),
        events: before.events + hand::acted_events(before.node, answers.last()),
        calls: before.calls + hand::acted_calls(s.rules, before.node, answers.last()),
    }
}

/// How it goes on after the action that led to `node`.
pub open spec fn goes_on(node: Node) -> Next {
    hand::next_after(node.table, node.phase->responded, node.phase->seat)
}

/// After `answers` the hand stands at a decision of `seat`: the table is `t`, and
/// `responded` marks who acted since the last full raise. All is in good order.
#[verifier::opaque]
pub open spec fn at_decision<A, S, E: HandEvaluator>(
    o: Origin<A, S>,
    e: E,
    answers: Seq<Action>,
    t: Table,
    responded: Seq<bool>,
    seat: int,
) -> bool {
    let node = hand::played(o.setup, e, answers).node;
    &&& hand::answers_fit(o.setup, e, answers)
    &&& soundness::node_sound(node)
    &&& node.phase == (Phase::Decision { seat, responded })
    &&& node.table == t
    &&& ending::steady(t)
    &&& hand::unsettled_marks(t, responded)[seat]
}

/// How a turn of a betting round ended.
enum Turn {
    Won(SeatIndex),
    Next(SeatIndex),
    Over,
}

/// From just after an answer the hand goes on as `hand::advanced` says.
proof fn played_goes_on<E: HandEvaluator>(s: Setup, e: E, answers: Seq<Action>)
    requires
        answers.len() > 0,
    ensures
        ({
            let m = just_played(s, e, answers);
            let after = hand::advanced(s.rules, e, m.node);
            hand::played(s, e, answers) == (hand::Progress {
                node: after.node,
                events: m.events + after.events,
                calls: m.calls + after.calls,
            })
        }),
{
    let before = hand::played(s, e, answers.drop_last());
    let raw = answers.last();
    let after = hand::advanced(s.rules, e, hand::acted(before.node, raw));
    assert(before.events + (hand::acted_events(before.node, raw) + after.events) =~= (before.events
        + hand::acted_events(before.node, raw)) + after.events);
    assert(before.calls + (hand::acted_calls(s.rules, before.node, raw) + after.calls) =~= (
    before.calls + hand::acted_calls(s.rules, before.node, raw)) + after.calls);
}

/// One more fitting answer.
proof fn answers_fit_push<E: HandEvaluator>(s: Setup, e: E, answers: Seq<Action>, raw: Action)
    requires
        hand::answers_fit(s, e, answers),
        hand::played(s, e, answers).node.phase is Decision,
    ensures
        hand::answers_fit(s, e, answers.push(raw)),
{
    let more = answers.push(raw);
    assert forall|k: int| 0 <= k < more.len() implies (#[trigger] hand::played(
        s,
        e,
        more.take(k),
    )).node.phase is Decision by {
        if k < answers.len() {
            assert(more.take(k) =~= answers.take(k));
        } else {
            assert(more.take(k) =~= answers);
        }
    }
}

/// Where somebody is still to act after an answer, the hand stands at that decision,
/// in good order and closer to the end of the round.
proof fn next_turn<E: HandEvaluator>(s: Setup, e: E, answers: Seq<Action>, raw: Action, next: int)
    requires
        s.rules.big_blind <= CHIP_LIMIT,
        ({
            let p = hand::played(s, e, answers);
            let m = just_played(s, e, answers.push(raw));
            &&& soundness::node_sound(p.node)
            &&& p.node.phase is Decision
            &&& ending::steady(p.node.table)
            &&& hand::unsettled_marks(p.node.table, p.node.phase->responded)[p.node.phase->seat]
            &&& hand::next_after(m.node.table, m.node.phase->responded, m.node.phase->seat)
                == Next::Asks(next)
        }),
    ensures
        ({
            let p = hand::played(s, e, answers);
            let m = just_played(s, e, answers.push(raw));
            let q = hand::played(s, e, answers.push(raw));
            let responded = m.node.phase->responded;
            &&& q.node == (Node {
                table: Table { action_on: Some(next as usize), ..m.node.table },
                phase: Phase::Decision { seat: next, responded },
                ..m.node
            })
            &&& q.events == m.events
            &&& q.calls == m.calls
            &&& soundness::node_sound(q.node)
            &&& ending::steady(q.node.table)
            &&& ending::level(p.node.table) ==> ending::level(q.node.table)
            &&& q.node.order == p.node.order
            &&& q.node.dealt == p.node.dealt
            &&& q.node.table.street == p.node.table.street
            &&& q.node.table.seats.len() == p.node.table.seats.len()
            &&& hand::unsettled_marks(q.node.table, responded)[next]
            &&& (raw == Action::Check && hand::owed(p.node.table, p.node.phase->seat) > 0)
                || ending::closer(
                ending::distance(p.node.table, p.node.phase->responded),
                ending::distance(q.node.table, responded),
            )
        }),
{
    let more = answers.push(raw);
    let p = hand::played(s, e, answers);
    let m = just_played(s, e, more);
    assert(more.drop_last() =~= answers);
    ending::answers_lead_on(p.node, raw);
    if ending::level(p.node.table) {
        ending::actions_keep_level(p.node, raw);
    }
    played_goes_on(s, e, more);
    progress::step_is_sound(s.rules, e, p.node, raw);
    progress::acting_is_sound(p.node, raw);
    soundness::normalized_is_proper(p.node.table, p.node.phase->seat, raw);
    soundness::action_keeps_table(
        p.node.table,
        p.node.phase->seat,
        hand::normalized(p.node.table, p.node.phase->seat, raw),
    );
    progress::next_is_a_seat(m.node.table, m.node.phase->responded, m.node.phase->seat);
    let q = hand::played(s, e, more);
    assert(q.node.table.seats == m.node.table.seats);
    assert(m.events + Seq::<Event>::empty() =~= m.events);
    assert(m.calls + Seq::<Call>::empty() =~= m.calls);
    assert(hand::unsettled_marks(q.node.table, m.node.phase->responded)
        =~= hand::unsettled_marks(m.node.table, m.node.phase->responded));
}

/// What was told before an answer, and what the answer adds.
proof fn told_one_more<A: Agent, S: EventSink, E: HandEvaluator>(
    o: Origin<A, S>,
    e: E,
    answers: Seq<Action>,
    raw: Action,
    agents0: Seq<A>,
    sink0: S,
    agents1: Seq<A>,
    sink1: S,
)
    requires
        told(o, hand::played(o.setup, e, answers), agents0, sink0),
        event::received(
            sink0,
            hand::acted_events(hand::played(o.setup, e, answers).node, raw),
            sink1,
        ),
        agent::all_called(
            agents0,
            hand::acted_calls(o.setup.rules, hand::played(o.setup, e, answers).node, raw),
            agents1,
        ),
    ensures
        told(o, just_played(o.setup, e, answers.push(raw)), agents1, sink1),
{
    let p = hand::played(o.setup, e, answers);
    let more = answers.push(raw);
    assert(more.drop_last() =~= answers);
    let m = just_played(o.setup, e, more);
    event::received_in_turn(o.sink, p.events, sink0, hand::acted_events(p.node, raw), sink1);
    let start = seq![Call::Start { hand_id: o.setup.hand_id }];
    agent::called_in_turn(
        o.agents,
        start + p.calls,
        agents0,
        hand::acted_calls(o.setup.rules, p.node, raw),
        agents1,
    );
    assert((start + p.calls) + hand::acted_calls(o.setup.rules, p.node, raw) =~= start + m.calls);
}

impl<E: HandEvaluator> Engine<E> {
    /// Asks `seat` and carries the answer out: the table, the sink and all agents
    /// learn of it. Returns the answer as it was submitted, and whether the betting
    /// is reopened.
    fn take_turn<A: Agent, S: EventSink>(
        &self,
        state: &mut GameState,
        responded: &mut Vec<bool>,
        seat: SeatIndex,
        agents: &mut Vec<A>,
        sink: &mut S,
        Ghost(node): Ghost<Node>,
    ) -> (raw: Action)
        requires
            soundness::node_sound(node),
            node.phase == (Phase::Decision { seat: seat as int, responded: old(responded)@ }),
            node.table == old(state)@,
            old(agents)@.len() == node.table.seats.len(),
            old(agents)@[seat as int].ready(),
        ensures
            ({
                let after = hand::acted(node, raw);
                &&& final(state)@ == after.table
                &&& final(responded)@ == after.phase->responded
                &&& event::received(*old(sink), hand::acted_events(node, raw), *final(sink))
                &&& agent::all_called(
                    old(agents)@,
                    hand::acted_calls(self.rules, node, raw),
                    final(agents)@,
                )
            }),
            final(agents)@.len() == old(agents)@.len(),
            agent::all_stalls(final(agents)@) <= agent::all_stalls(old(agents)@),
            raw == Action::Check && hand::owed(node.table, seat as int) > 0
                ==> agent::all_stalls(final(agents)@) < agent::all_stalls(old(agents)@),
    {
        let ghost a0 = agents@;
        let can_reopen = !responded[seat];
        let legal = self.compute_legal_actions(state, seat, can_reopen);
        let public = engine::public_players(state);
        assert(state@.seats[seat as int] == state.players@[seat as int]@);
        assert(model::in_play(state@.seats[seat as int]));
        let hole_cards: [Card; 2] = match state.players[seat].hole_cards {
            Some(cards) => cards,
            None => {
                assert(false);
                let c = Card::new(crate::cards::Rank::Two, crate::cards::Suit::Clubs);
                [c, c]
            },
        };
        let ghost seen = hand::sight(self.rules, node.table, responded@, seat as int);
        let raw: Action;
        {
            let obs = Observation {
                hole_cards,
                board: state.board.as_slice(),
                pot: &state.pot,
                legal_actions: legal,
                players: public.as_slice(),
                street: state.street,
                position: seat,
                dealer: state.dealer,
            };
            proof {
                assert(obs@ =~= seen);
                assert(seen.cards() =~= hand::seven(node.table, seat as int));
            }
            raw = agents[seat].act(&obs);
        }
        let ghost a1 = agents@;
        let ghost ask = Call::Ask { seat: seat as int, sight: seen, action: raw };
        proof {
            assert(agent::called(a0, ask, a1));
            assert forall|i: int| 0 <= i < a0.len() implies (#[trigger] a1[i]).stalls()
                <= a0[i].stalls() by {}
            agent::stalls_no_more(a0, a1);
            if raw == Action::Check && hand::owed(node.table, seat as int) > 0 {
                agent::stalls_less(a0, a1, seat as int);
            }
            soundness::normalized_is_proper(node.table, seat as int, raw);
            progress::acting_is_sound(node, raw);
        }
        let action = self.normalize_action(state, seat, raw);
        let reopened = self.apply_action(state, seat, action, sink);
        engine::note_response(responded, seat, reopened);
        // Every agent learns of the action.
        let pot_total: u32 = engine::chips_in_middle(state);
        let news = EngineEvent::ActionTaken { seat, action, pot_total };
        tell_all(agents, &news);
        proof {
            agent::called_once_more(a0, Seq::empty(), a0, ask, a1);
            agent::called_once_more(
                a0,
                Seq::empty().push(ask),
                a1,
                Call::Tell { event: news@ },
                agents@,
            );
            assert(Seq::empty().push(ask).push(Call::Tell { event: news@ }) =~= hand::acted_calls(
                self.rules,
                node,
                raw,
            ));
        }
        raw
    }

    /// One turn of a betting round: `current` acts, and it shows how it goes on.
    #[verifier::rlimit(40)]
    #[verifier::spinoff_prover]
    fn betting_turn<A: Agent, S: EventSink>(
        &self,
        state: &mut GameState,
        has_responded: &mut Vec<bool>,
        current: SeatIndex,
        agents: &mut Vec<A>,
        sink: &mut S,
        Ghost(o): Ghost<Origin<A, S>>,
        Ghost(answers): Ghost<Seq<Action>>,
    ) -> (r: (Turn, Ghost<Action>))
        requires
            o.setup.rules == self.rules,
            self.rules.big_blind <= CHIP_LIMIT,
            at_decision(
                o,
                self.evaluator,
                answers,
                old(state)@,
                old(has_responded)@,
                current as int,
            ),
            told(o, hand::played(o.setup, self.evaluator, answers), old(agents)@, *old(sink)),
            old(agents)@.len() == old(state)@.seats.len(),
            never_stuck(o.setup, self.evaluator, o.agents),
        ensures
            final(agents)@.len() == old(agents)@.len(),
            final(state)@.seats.len() == old(state)@.seats.len(),
            final(state)@.street == old(state)@.street,
            ending::level(old(state)@) ==> ending::level(final(state)@),
            hand::answers_fit(o.setup, self.evaluator, answers.push(r.1@)),
            ({
                let p = hand::played(o.setup, self.evaluator, answers);
                let more = answers.push(r.1@);
                let m = just_played(o.setup, self.evaluator, more);
                &&& told(o, m, final(agents)@, *final(sink))
                &&& m.node.order == p.node.order
                &&& m.node.dealt == p.node.dealt
                &&& m.node.table.street == p.node.table.street
                &&& m.node.table.seats.len() == p.node.table.seats.len()
                &&& match r.0 {
                    Turn::Won(w) => {
                        &&& m.node.table == final(state)@
                        &&& progress::just_acted(m.node)
                        &&& goes_on(m.node) == Next::Won(w as int)
                        &&& w < m.node.table.seats.len()
                    },
                    Turn::Over => {
                        &&& m.node.table == final(state)@
                        &&& progress::just_acted(m.node)
                        &&& goes_on(m.node) == Next::RoundOver
                    },
                    Turn::Next(next) => {
                        &&& hand::played(o.setup, self.evaluator, more).node.order
                            == p.node.order
                        &&& hand::played(o.setup, self.evaluator, more).node.dealt
                            == p.node.dealt
                        &&& at_decision(
                            o,
                            self.evaluator,
                            more,
                            final(state)@,
                            final(has_responded)@,
                            next as int,
                        )
                        &&& told(
                            o,
                            hand::played(o.setup, self.evaluator, more),
                            final(agents)@,
                            *final(sink),
                        )
                        &&& agent::all_stalls(final(agents)@) <= agent::all_stalls(old(agents)@)
                        &&& agent::all_stalls(final(agents)@) < agent::all_stalls(old(agents)@)
                            || ending::closer(
                            ending::distance(old(state)@, old(has_responded)@),
                            ending::distance(final(state)@, final(has_responded)@),
                        )
                    },
                }
            }),
    {
        reveal(at_decision);
        let ghost e = self.evaluator;
        let ghost p = hand::played(o.setup, e, answers);
        let ghost a0 = agents@;
        let ghost s0 = *sink;
        assert(asked(o.setup, e, o.agents, answers, agents@));
        let raw = self.take_turn(state, has_responded, current, agents, sink, Ghost(p.node));
        let ghost more = answers.push(raw);
        let ghost m = just_played(o.setup, e, more);
        proof {
            assert(more.drop_last() =~= answers);
            answers_fit_push(o.setup, e, answers, raw);
            progress::acting_is_sound(p.node, raw);
            told_one_more(o, e, answers, raw, a0, s0, agents@, *sink);
            soundness::normalized_is_proper(p.node.table, current as int, raw);
            soundness::action_keeps_table(
                p.node.table,
                current as int,
                hand::normalized(p.node.table, current as int, raw),
            );
            soundness::first_marked_finds(model::in_play_marks(state@.seats), 0);
            soundness::none_marked_counts_zero(model::in_play_marks(state@.seats));
            progress::next_is_a_seat(state@, has_responded@, current as int);
            assert(state@ == m.node.table);
            if ending::level(p.node.table) {
                ending::actions_keep_level(p.node, raw);
            }
        }
        if state.players_still_in() == 1 {
            let w: usize = match engine::first_in_play(&state.players) {
                Some(w) => w,
                None => 0,
            };
            return (Turn::Won(w), Ghost(raw));
        }
        match engine::next_unsettled(state, has_responded, current) {
            None => (Turn::Over, Ghost(raw)),
            Some(next) => {
                proof {
                    next_turn(o.setup, e, answers, raw, next as int);
                }
                state.action_on = Some(next);
                assert(state@ =~= hand::played(o.setup, e, more).node.table);
                (Turn::Next(next), Ghost(raw))
            },
        }
    }

    /// Run one street's betting round. Returns the winner if everyone else folded,
    /// or `None` if the round ended normally; and all answers of the hand so far.
    fn run_betting_round<A: Agent, S: EventSink>(
        &self,
        state: &mut GameState,
        first_to_act: SeatIndex,
        agents: &mut Vec<A>,
        sink: &mut S,
        Ghost(o): Ghost<Origin<A, S>>,
        Ghost(sofar): Ghost<Seq<Action>>,
    ) -> (r: (Option<SeatIndex>, Ghost<Seq<Action>>))
        requires
            o.setup.rules == self.rules,
            self.rules.big_blind <= CHIP_LIMIT,
            at_decision(
                o,
                self.evaluator,
                sofar,
                old(state)@,
                hand::none_marked(old(state)@.seats.len()),
                first_to_act as int,
            ),
            told(o, hand::played(o.setup, self.evaluator, sofar), old(agents)@, *old(sink)),
            old(agents)@.len() == old(state)@.seats.len(),
            never_stuck(o.setup, self.evaluator, o.agents),
        ensures
            hand::answers_fit(o.setup, self.evaluator, r.1@),
            r.1@.len() > 0,
            ({
                let p = hand::played(o.setup, self.evaluator, sofar);
                let m = just_played(o.setup, self.evaluator, r.1@);
                &&& m.node.order == p.node.order
                &&& m.node.dealt == p.node.dealt
                &&& m.node.table.street == p.node.table.street
                &&& progress::just_acted(m.node)
                &&& told(o, m, final(agents)@, *final(sink))
                &&& final(agents)@.len() == old(agents)@.len()
                &&& final(state)@.seats.len() == old(state)@.seats.len()
                &&& match r.0 {
                    Some(w) => {
                        &&& final(state)@ == m.node.table
                        &&& goes_on(m.node) == Next::Won(w as int)
                        &&& w < final(state)@.seats.len()
                        &&& hand::still_in(final(state)@) == 1
                        &&& model::in_play(final(state)@.seats[w as int])
                    },
                    None => {
                        &&& final(state)@ == (Table { action_on: None, ..m.node.table })
                        &&& goes_on(m.node) == Next::RoundOver
                        &&& hand::still_in(final(state)@) != 1
                        &&& ending::matched(final(state)@)
                        &&& ending::level(old(state)@) ==> ending::even(final(state)@)
                    },
                }
            }),
    {
        let ghost e = self.evaluator;
        let ghost p0 = hand::played(o.setup, e, sofar);
        assert(p0.node.table == state@) by {
            reveal(at_decision);
        }
        let n: usize = state.players.len();
        // has_responded[i]: player i has voluntarily acted since the last full raise.
        // Blind posts do not count, so the big blind keeps its option.
        let mut has_responded: Vec<bool> = tree::all_false(n);
        let mut current: usize = first_to_act;
        let ghost mut answers = sofar;
        loop
            invariant
                e == self.evaluator,
                o.setup.rules == self.rules,
                self.rules.big_blind <= CHIP_LIMIT,
                p0 == hand::played(o.setup, e, sofar),
                at_decision(o, e, answers, state@, has_responded@, current as int),
                told(o, hand::played(o.setup, e, answers), agents@, *sink),
                hand::played(o.setup, e, answers).node.order == p0.node.order,
                hand::played(o.setup, e, answers).node.dealt == p0.node.dealt,
                state@.street == p0.node.table.street,
                state@.seats.len() == p0.node.table.seats.len(),
                agents@.len() == p0.node.table.seats.len(),
                old(agents)@.len() == p0.node.table.seats.len(),
                old(state)@.seats.len() == p0.node.table.seats.len(),
                ending::level(old(state)@) ==> ending::level(state@),
                never_stuck(o.setup, e, o.agents),
            decreases
                    agent::all_stalls(agents@),
                    ending::actives(state@),
                    ending::chips_left(state@),
                    ending::room(state@),
                    ending::to_act(state@, has_responded@),
        {
            let (turn, Ghost(raw)) = self.betting_turn(
                state,
                &mut has_responded,
                current,
                agents,
                sink,
                Ghost(o),
                Ghost(answers),
            );
            proof {
                answers = answers.push(raw);
            }
            match turn {
                Turn::Won(w) => {
                    proof {
                        let m = just_played(o.setup, e, answers).node;
                        progress::next_is_a_seat(m.table, m.phase->responded, m.phase->seat);
                    }
                    return (Some(w), Ghost(answers));
                },
                Turn::Over => {
                    let ghost t = state@;
                    proof {
                        let m = just_played(o.setup, e, answers).node;
                        ending::rounds_end_matched(m.table, m.phase->responded, m.phase->seat);
                    }
                    state.action_on = None;
                    assert(state@ =~= Table { action_on: None, ..t });
                    assert(state@.seats == t.seats);
                    return (None, Ghost(answers));
                },
                Turn::Next(next) => {
                    current = next;
                },
            }
        }
    }

    /// From a finished round to the next one, or to the showdown: deals streets and
    /// tells every agent of the board, as long as two are still in. Returns the first
    /// to act, or what each seat was awarded.
    fn deal_streets<A: Agent, S: EventSink>(
        &self,
        state: &mut GameState,
        deck: &mut Deck,
        agents: &mut Vec<A>,
        sink: &mut S,
    ) -> (r: Result<SeatIndex, Vec<i64>>)
        requires
            progress::between_rounds(old(state)@, old(deck).order(), old(deck).dealt()),
            self.rules.big_blind <= CHIP_LIMIT,
        ensures
            ({
                let later = hand::streets(
                    self.rules,
                    self.evaluator,
                    old(state)@,
                    old(deck).order(),
                    old(deck).dealt(),
                );
                &&& final(state)@ == later.node.table
                &&& final(deck).order() == old(deck).order()
                &&& final(deck).dealt() == later.node.dealt
                &&& event::received(*old(sink), later.events, *final(sink))
                &&& agent::all_called(old(agents)@, later.calls, final(agents)@)
                &&& match r {
                    Ok(first) => later.node.phase == (Phase::Decision {
                        seat: first as int,
                        responded: hand::none_marked(old(state)@.seats.len()),
                    }),
                    Err(deltas) => later.node.phase == (Phase::Terminal {
                        deltas: engine::deltas_view(deltas@),
                    }),
                }
            }),
            final(state)@.seats.len() == old(state)@.seats.len(),
            final(agents)@.len() == old(agents)@.len(),
        decreases hand::streets_left(old(state)@.street),
    {
        let ghost rules = self.rules;
        let ghost e = self.evaluator;
        let ghost t = state@;
        let ghost order = deck.order();
        let ghost dealt = deck.dealt();
        let ghost goal = hand::streets(rules, e, t, order, dealt);
        let (street, n_cards): (Street, usize) = match state.street {
            Street::Preflop => (Street::Flop, 3),
            Street::Flop => (Street::Turn, 1),
            Street::Turn => (Street::River, 1),
            Street::River | Street::Showdown => {
                self.deal_remaining_board(state, deck, sink);
                let deltas = self.resolve_showdown(state, Ghost(order), Ghost(dealt));
                state.street = Street::Showdown;
                assert(state@ =~= goal.node.table);
                return Err(deltas);
            },
        };
        proof {
            progress::street_is_sound(rules, t, order, dealt, street, n_cards as int);
        }
        let ghost s0 = *sink;
        let ghost a0 = agents@;
        let contested = state.players_still_in() >= 2;
        self.begin_street(state, street);
        let event = self.deal_board_cards(state, deck, n_cards, street, sink);
        let ghost t1 = hand::street_dealt(rules, t, order, dealt, street, n_cards as int);
        assert(state@ =~= t1);
        let ghost news = hand::board_calls(t, event@);
        if contested {
            tell_all(agents, &event);
            proof {
                agent::called_once_more(
                    a0,
                    Seq::empty(),
                    a0,
                    Call::Tell { event: event@ },
                    agents@,
                );
                assert(Seq::empty().push(Call::Tell { event: event@ }) =~= news);
            }
        }
        assert(agent::all_called(a0, news, agents@));
        let ghost s1 = *sink;
        let ghost a1 = agents@;
        proof {
            soundness::next_marked_finds(model::active_marks(t1.seats), t1.dealer as int);
        }
        if engine::active_count(&state.players) >= 2 {
            if let Some(first) = engine::next_active_after(state.dealer, &state.players) {
                state.action_on = Some(first);
                assert(state@ =~= goal.node.table);
                return Ok(first);
            }
        }
        // No betting on this street.
        proof {
            soundness::amounts_within_limit(t1);
            progress::nothing_to_collect(t1);
        }
        pot_calc::collect_street_bets(&mut state.players, &mut state.pot);
        assert(state@ =~= hand::collected(t1));
        let r = self.deal_streets(state, deck, agents, sink);
        proof {
            let later = hand::streets(rules, e, hand::collected(t1), order, dealt + n_cards);
            event::received_in_turn(s0, seq![event@], s1, later.events, *sink);
            agent::called_in_turn(a0, news, a1, later.calls, agents@);
        }
        r
    }

    /// From the end of a betting round, which `winner` took if everyone else folded,
    /// to the next round or to the end of the hand. Returns the first to act, or what
    /// each seat was awarded.
    fn after_round<A: Agent, S: EventSink>(
        &self,
        state: &mut GameState,
        deck: &mut Deck,
        winner: Option<SeatIndex>,
        agents: &mut Vec<A>,
        sink: &mut S,
        Ghost(o): Ghost<Origin<A, S>>,
        Ghost(more): Ghost<Seq<Action>>,
    ) -> (r: Result<SeatIndex, Vec<i64>>)
        requires
            o.setup.rules == self.rules,
            1 <= self.rules.big_blind <= CHIP_LIMIT,
            hand::answers_fit(o.setup, self.evaluator, more),
            more.len() > 0,
            old(agents)@.len() == old(state)@.seats.len(),
            ({
                let m = just_played(o.setup, self.evaluator, more);
                &&& progress::just_acted(m.node)
                &&& told(o, m, old(agents)@, *old(sink))
                &&& m.node.order == old(deck).order()
                &&& m.node.dealt == old(deck).dealt()
                &&& match winner {
                    Some(w) => {
                        &&& old(state)@ == m.node.table
                        &&& goes_on(m.node) == Next::Won(w as int)
                        &&& w < old(state)@.seats.len()
                    },
                    None => {
                        &&& old(state)@ == (Table { action_on: None, ..m.node.table })
                        &&& goes_on(m.node) == Next::RoundOver
                    },
                }
            }),
        ensures
            ({
                let p = hand::played(o.setup, self.evaluator, more);
                &&& p.node.table == final(state)@
                &&& soundness::node_sound(p.node)
                &&& told(o, p, final(agents)@, *final(sink))
                &&& match r {
                    Ok(first) => {
                        &&& at_decision(
                            o,
                            self.evaluator,
                            more,
                            final(state)@,
                            hand::none_marked(final(state)@.seats.len()),
                            first as int,
                        )
                        &&& p.node.order == final(deck).order()
                        &&& p.node.dealt == final(deck).dealt()
                        &&& 0 <= hand::streets_left(final(state)@.street) < hand::streets_left(
                            old(state)@.street,
                        )
                    },
                    Err(deltas) => p.node.phase == (Phase::Terminal {
                        deltas: engine::deltas_view(deltas@),
                    }),
                }
            }),
            final(agents)@.len() == old(agents)@.len(),
            final(state)@.seats.len() == old(state)@.seats.len(),
    {
        let ghost e = self.evaluator;
        let ghost m = just_played(o.setup, e, more);
        let ghost t = m.node.table;
        proof {
            played_goes_on(o.setup, e, more);
            progress::advancing_is_sound(self.rules, e, m.node);
            soundness::amounts_within_limit(t);
        }
        let ghost q = hand::played(o.setup, e, more);
        if let Some(w) = winner {
            let deltas = self.award_uncontested(state, w);
            state.action_on = None;
            proof {
                assert(m.events + Seq::<Event>::empty() =~= m.events);
                assert(m.calls + Seq::<Call>::empty() =~= m.calls);
                assert(state@ =~= q.node.table);
            }
            return Err(deltas);
        }
        proof {
            progress::collected_is_between_rounds(t, m.node.order, m.node.dealt);
        }
        pot_calc::collect_street_bets(&mut state.players, &mut state.pot);
        let ghost t1 = Table { action_on: None, ..hand::collected(t) };
        assert(state@ =~= t1);
        let ghost a1 = agents@;
        let ghost s1 = *sink;
        let next = self.deal_streets(state, deck, agents, sink);
        proof {
            let later = hand::streets(self.rules, e, t1, m.node.order, m.node.dealt);
            told_more(o, m, a1, s1, later, agents@, *sink);
            ending::streets_lead_on(self.rules, e, t1, m.node.order, m.node.dealt);
            if let Ok(first) = next {
                fresh_decision(o, e, more, state@, first as int);
            }
        }
        next
    }

    /// Plays all streets. Returns what each seat was awarded, and all answers.
    fn run_streets<A: Agent, S: EventSink>(
        &self,
        state: &mut GameState,
        deck: &mut Deck,
        first_preflop: SeatIndex,
        agents: &mut Vec<A>,
        sink: &mut S,
        Ghost(o): Ghost<Origin<A, S>>,
    ) -> (r: (Vec<i64>, Ghost<Seq<Action>>))
        requires
            o.setup.rules == self.rules,
            1 <= self.rules.big_blind <= CHIP_LIMIT,
            at_decision(
                o,
                self.evaluator,
                Seq::empty(),
                old(state)@,
                hand::none_marked(old(state)@.seats.len()),
                first_preflop as int,
            ),
            told(o, hand::opened(o.setup), old(agents)@, *old(sink)),
            hand::opened(o.setup).node.order == old(deck).order(),
            hand::opened(o.setup).node.dealt == old(deck).dealt(),
            old(agents)@.len() == old(state)@.seats.len(),
            never_stuck(o.setup, self.evaluator, o.agents),
        ensures
            hand::answers_fit(o.setup, self.evaluator, r.1@),
            ({
                let p = hand::played(o.setup, self.evaluator, r.1@);
                &&& p.node.table == final(state)@
                &&& p.node.phase == (Phase::Terminal { deltas: engine::deltas_view(r.0@) })
                &&& soundness::node_sound(p.node)
                &&& told(o, p, final(agents)@, *final(sink))
            }),
            final(agents)@.len() == old(agents)@.len(),
    {
        let ghost e = self.evaluator;
        let ghost mut answers: Seq<Action> = Seq::empty();
        let mut first: usize = first_preflop;
        let ghost order = deck.order();
        loop
            invariant
                e == self.evaluator,
                o.setup.rules == self.rules,
                1 <= self.rules.big_blind <= CHIP_LIMIT,
                at_decision(
                    o,
                    e,
                    answers,
                    state@,
                    hand::none_marked(state@.seats.len()),
                    first as int,
                ),
                told(o, hand::played(o.setup, e, answers), agents@, *sink),
                hand::played(o.setup, e, answers).node.order == deck.order(),
                hand::played(o.setup, e, answers).node.dealt == deck.dealt(),
                agents@.len() == state@.seats.len(),
                agents@.len() == old(agents)@.len(),
                never_stuck(o.setup, e, o.agents),
            decreases hand::streets_left(state@.street),
        {
            let ghost street0 = state@.street;
            assert(hand::played(o.setup, e, answers).node.table == state@) by {
                reveal(at_decision);
            }
            let (winner, Ghost(more)) = self.run_betting_round(
                state,
                first,
                agents,
                sink,
                Ghost(o),
                Ghost(answers),
            );
            match self.after_round(state, deck, winner, agents, sink, Ghost(o), Ghost(more)) {
                Err(deltas) => {
                    return (deltas, Ghost(more));
                },
                Ok(f) => {
                    first = f;
                    proof {
                        answers = more;
                    }
                },
            }
        }
    }

    /// Run one complete hand. Returns a [`HandResult`] with per-seat chip deltas.
    ///
    /// `stacks`: chip counts per seat going into this hand.
    /// `dealer`: button position (seat index).
    /// `seat_kinds`: per-seat designation; `None` makes every seat `Live`.
    /// `agents`: one agent per seat, indexed identically to `stacks`.
    ///
    /// [`crate::game::laws::funded_tables_open`] shows that ordinary tables qualify,
    /// [`ready_agents_play_on`] that agents which can always be asked do, and
    /// [`crate::game::scripts::full_scripts_play_on`] that scripts which say the whole hand
    /// do.
    pub fn run_hand<A: Agent, S: EventSink>(
        &self,
        hand_id: HandId,
        deck_seed: u64,
        stacks: &[u32],
        dealer: SeatIndex,
        seat_kinds: Option<&[SeatKind]>,
        agents: &mut Vec<A>,
        sink: &mut S,
    ) -> (result: HandResult)
        requires
            progress::setup_ok(self.setup(hand_id, deck_seed, stacks@, dealer, seat_kinds)),
            self.rules.big_blind >= 1,
            old(agents)@.len() == stacks@.len(),
            never_stuck(
                self.setup(hand_id, deck_seed, stacks@, dealer, seat_kinds),
                self.evaluator,
                old(agents)@,
            ),
        ensures
            exists|answers: Seq<Action>| #[trigger]
                hand_ran(
                    self.setup(hand_id, deck_seed, stacks@, dealer, seat_kinds),
                    self.evaluator,
                    answers,
                    (old(agents)@, *old(sink)),
                    result@,
                    (final(agents)@, *final(sink)),
                ),
    {
        let ghost s = self.setup(hand_id, deck_seed, stacks@, dealer, seat_kinds);
        let ghost e = self.evaluator;
        let ghost o = Origin { setup: s, agents: agents@, sink: *sink };
        self.announce_start(hand_id, deck_seed, dealer, sink);
        let ghost s1 = *sink;
        start_all(agents, hand_id);
        let (mut state, mut deck, bb) = self.deal_in(
            hand_id,
            deck_seed,
            stacks,
            dealer,
            seat_kinds,
            sink,
        );
        let ghost start = Call::Start { hand_id };
        let ghost begin = Event::HandStarted { hand_id, dealer, deck_seed };
        let ghost opening = hand::opened(s);
        proof {
            progress::opening_table_is_sound(s);
            progress::opening_is_sound(s);
            agent::called_once_more(o.agents, Seq::empty(), o.agents, start, agents@);
            assert(Seq::empty().push(start) =~= seq![start] + opening.calls);
            event::received_in_turn(o.sink, seq![begin], s1, hand::dealt_in(s).2, *sink);
            assert(told(o, opening, agents@, *sink));
            assert(hand::answers_fit(s, e, Seq::empty()));
        }
        let ghost mut answers: Seq<Action> = Seq::empty();
        let deltas: Vec<i64> = match engine::first_to_act(stacks, bb, &state.players) {
            None => {
                // Nobody is asked: the first seat in play takes the pot.
                proof {
                    soundness::none_marked_counts_zero(model::in_play_marks(state@.seats));
                    soundness::first_marked_finds(model::in_play_marks(state@.seats), 0);
                }
                let winner: usize = match engine::first_in_play(&state.players) {
                    Some(w) => w,
                    None => 0,
                };
                let deltas = self.award_uncontested(&mut state, winner);
                state.action_on = None;
                assert(state@ =~= opening.node.table);
                deltas
            },
            Some(first) => {
                state.action_on = Some(first);
                assert(state@ =~= opening.node.table);
                proof {
                    assert(hand::played(s, e, Seq::<Action>::empty()) == opening);
                    fresh_decision(o, e, Seq::empty(), state@, first as int);
                }
                let (deltas, Ghost(all)) = self.run_streets(
                    &mut state,
                    &mut deck,
                    first,
                    agents,
                    sink,
                    Ghost(o),
                );
                proof {
                    answers = all;
                }
                deltas
            },
        };
        let ghost p = hand::played(s, e, answers);
        proof {
            let d = p.node.phase->deltas;
            assert(d =~= engine::deltas_view(deltas@));
            assert forall|i: int| 0 <= i < deltas@.len() implies 0 <= #[trigger] deltas@[i]
                <= CHIP_LIMIT && state@.seats[i].committed <= CHIP_LIMIT by {
                assert(0 <= d[i] <= CHIP_LIMIT);
            }
        }
        let result = engine::build_result(hand_id, &state, &deltas);
        let ghost a2 = agents@;
        let ghost s2 = *sink;
        let over = EngineEvent::HandEnded { hand_id, result: result.clone() };
        sink.on_event(&over);
        end_all(agents, &result);
        proof {
            event::received_one_more(o.sink, p.events, s2, over@, *sink);
            let end = Call::End { result: result@ };
            agent::called_once_more(o.agents, seq![start] + p.calls, a2, end, agents@);
            assert((seq![start] + p.calls).push(end) =~= seq![start] + p.calls + seq![end]);
            assert(hand_ran(s, e, answers, (o.agents, o.sink), result@, (agents@, *sink)));
        }
        result
    }
}

/// A hand from `s` in which the players answered `answers`: its outcome, and what
/// agents and sink were told from beginning to end.
pub open spec fn hand_ran<A: Agent, S: EventSink, E: HandEvaluator>(
    s: Setup,
    e: E,
    answers: Seq<Action>,
    before: (Seq<A>, S),
    result: model::Outcome,
    after: (Seq<A>, S),
) -> bool {
    let p = hand::played(s, e, answers);
    &&& deck::full_deck(deck::shuffled(s.deck_seed))
    &&& hand::answers_fit(s, e, answers)
    &&& p.node.phase is Terminal
    &&& soundness::node_sound(p.node)
    &&& result == hand::outcome(s.hand_id, p.node.table, p.node.phase->deltas)
    &&& event::received(
        before.1,
        p.events.push(Event::HandEnded { hand_id: s.hand_id, result }),
        after.1,
    )
    &&& agent::all_called(
        before.0,
        seq![Call::Start { hand_id: s.hand_id }] + p.calls + seq![Call::End { result }],
        after.0,
    )
}

/// What was told, and what comes after it.
proof fn told_more<A: Agent, S: EventSink>(
    o: Origin<A, S>,
    m: hand::Progress,
    agents0: Seq<A>,
    sink0: S,
    later: hand::Progress,
    agents1: Seq<A>,
    sink1: S,
)
    requires
        told(o, m, agents0, sink0),
        event::received(sink0, later.events, sink1),
        agent::all_called(agents0, later.calls, agents1),
    ensures
        told(
            o,
            hand::Progress {
                node: later.node,
                events: m.events + later.events,
                calls: m.calls + later.calls,
            },
            agents1,
            sink1,
        ),
{
    event::received_in_turn(o.sink, m.events, sink0, later.events, sink1);
    let start = seq![Call::Start { hand_id: o.setup.hand_id }];
    agent::called_in_turn(o.agents, start + m.calls, agents0, later.calls, agents1);
    assert((start + m.calls) + later.calls =~= start + (m.calls + later.calls));
}

/// Where nobody has acted yet, the player to act still has to act.
proof fn fresh_decision<A, S, E: HandEvaluator>(
    o: Origin<A, S>,
    e: E,
    answers: Seq<Action>,
    t: Table,
    seat: int,
)
    requires
        hand::answers_fit(o.setup, e, answers),
        soundness::node_sound(hand::played(o.setup, e, answers).node),
        hand::played(o.setup, e, answers).node.phase == (Phase::Decision {
            seat,
            responded: hand::none_marked(t.seats.len()),
        }),
        hand::played(o.setup, e, answers).node.table == t,
        ending::steady(t),
    ensures
        at_decision(o, e, answers, t, hand::none_marked(t.seats.len()), seat),
{
    reveal(at_decision);
}

/// Agents that can always be asked get stuck in no hand.
pub proof fn ready_agents_play_on<A: Agent, E: HandEvaluator>(s: Setup, e: E, agents: Seq<A>)
    requires
        forall|a: A| #[trigger] a.ready(),
    ensures
        never_stuck(s, e, agents),
{
}

} // verus!
