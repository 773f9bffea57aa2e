//! Pausable, cloneable hand stepper for solver training.
//!
//! `Engine::run_hand` drives a full hand to completion against fixed agents.
//! Solvers need something different: the ability to stop at a decision point,
//! clone the state, try a candidate action, and see what terminal utility
//! comes out, repeatedly, against many branches. `GameTree` is that.
//!
//! * The deck lives inside the tree. Cloning the tree clones the deck, so two
//!   branches from the same decision point produce the same subsequent deals.
//! * All chance resolution (board dealing, showdown) happens inside
//!   `apply_action`. Consumers see a pure sequence of decisions that ends in a
//!   terminal node, with no explicit chance nodes.
//! * Both the tree and `Engine::run_hand` follow the machine of `game::hand`.

use vstd::prelude::*;

use crate::agent::{Agent, Observation, PublicPlayerState, Sight};
use crate::cards::{deck, Card, Deck, HandEvaluator};
use crate::game::action::{Action, LegalActions};
use crate::game::contest;
use crate::game::engine;
use crate::game::engine::Engine;
use crate::game::event;
use crate::game::event::{EventSink, HandResult};
use crate::game::hand;
use crate::game::hand::{Node, Phase, CHIP_LIMIT};
use crate::game::laws;
use crate::game::lists::Board;
use crate::game::model;
use crate::game::model::{Event, Table};
use crate::game::pot_calc;
use crate::game::progress;
use crate::game::run;
use crate::game::soundness;
use crate::game::state::{GameState, HandId, Pot, SeatIndex, SeatKind, Street};

verus! {

/// The kind of node the tree is currently at.
#[derive(Clone, Copy, Debug, PartialEq, Eq, Structural)]
pub enum NodeKind {
    /// A player is to act. Call `observation_owned` / `legal_actions` to
    /// inspect the decision, then `apply_action` to advance.
    Decision { seat: SeatIndex },
    /// The hand is over. Call `utilities` for per-seat chip deltas.
    Terminal,
}

/// Pausable, cloneable stepper over a single hand.
pub struct GameTree {
    pub state: GameState,
    pub deck: Deck,
    stage: Stage,
}

enum Stage {
    /// A betting round is in progress and `current` is to act. `has_responded[i]`
    /// is true once seat `i` has voluntarily acted since the last full raise; blind
    /// posts do not count.
    Decision { current: SeatIndex, has_responded: Vec<bool> },
    /// The hand is over. `chip_deltas[i]` is what seat `i` was awarded from the pot,
    /// not its net gain: subtract `total_committed` for that.
    Terminal { chip_deltas: Vec<i64> },
}

impl Stage {
    spec fn phase(self) -> Phase {
        match self {
            Stage::Decision { current, has_responded } => Phase::Decision {
                seat: current as int,
                responded: has_responded@,
            },
            Stage::Terminal { chip_deltas } => Phase::Terminal {
                deltas: engine::deltas_view(chip_deltas@),
            },
        }
    }
}

impl View for GameTree {
    type V = Node;

    closed spec fn view(&self) -> Node {
        Node {
            table: self.state@,
            order: self.deck.order(),
            dealt: self.deck.dealt(),
            phase: self.stage.phase(),
        }
    }
}

impl Clone for GameTree {
    fn clone(&self) -> (tree: GameTree)
        ensures
            tree@ == self@,
    {
        let stage = match &self.stage {
            Stage::Decision { current, has_responded } => Stage::Decision {
                current: *current,
                has_responded: has_responded.clone(),
            },
            Stage::Terminal { chip_deltas } => Stage::Terminal { chip_deltas: chip_deltas.clone() },
        };
        let tree = GameTree { state: self.state.clone(), deck: self.deck.clone(), stage };
        assert(tree@ =~= self@);
        tree
    }
}

impl GameTree {
    /// The tree is in good order.
    pub open spec fn sound(self) -> bool {
        soundness::node_sound(self@)
    }

    /// Start a new hand. Posts antes and blinds, deals hole cards, marks
    /// dead hands folded, and advances to the first decision (or directly to
    /// terminal when only one seat has chips, or nobody can act: the first seat in play
    /// takes the pot).
    pub fn new<E: HandEvaluator, S: EventSink>(
        engine: &Engine<E>,
        hand_id: HandId,
        deck_seed: u64,
        stacks: &[u32],
        dealer: SeatIndex,
        seat_kinds: Option<&[SeatKind]>,
        sink: &mut S,
    ) -> (tree: GameTree)
        requires
            progress::setup_ok(engine.setup(hand_id, deck_seed, stacks@, dealer, seat_kinds)),
        ensures
            ({
                let s = engine.setup(hand_id, deck_seed, stacks@, dealer, seat_kinds);
                &&& tree@ == hand::opened(s).node
                &&& event::received(*old(sink), hand::opened(s).events, *final(sink))
            }),
            tree.sound(),
            progress::turn_marked(tree@),
    {
        let ghost s = engine.setup(hand_id, deck_seed, stacks@, dealer, seat_kinds);
        engine.announce_start(hand_id, deck_seed, dealer, sink);
        let ghost mid = *sink;
        let (mut state, deck, bb) = engine.deal_in(
            hand_id,
            deck_seed,
            stacks,
            dealer,
            seat_kinds,
            sink,
        );
        proof {
            progress::opening_table_is_sound(s);
            progress::opening_is_sound(s);
            progress::openings_mark_turns(s);
            event::received_in_turn(
                *old(sink),
                seq![Event::HandStarted { hand_id, dealer, deck_seed }],
                mid,
                hand::dealt_in(s).2,
                *sink,
            );
        }
        let n: usize = state.players.len();
        match engine::first_to_act(stacks, bb, &state.players) {
            None => {
                let winner: usize = match engine::first_in_play(&state.players) {
                    Some(w) => w,
                    None => 0,
                };
                proof {
                    soundness::none_marked_counts_zero(model::in_play_marks(state@.seats));
                    soundness::first_marked_finds(model::in_play_marks(state@.seats), 0);
                }
                let chip_deltas = engine.award_uncontested(&mut state, winner);
                state.action_on = None;
                let tree = GameTree { state, deck, stage: Stage::Terminal { chip_deltas } };
                assert(tree@ =~= hand::opened(s).node);
                tree
            },
            Some(first) => {
                state.action_on = Some(first);
                let has_responded = all_false(n);
                let tree = GameTree {
                    state,
                    deck,
                    stage: Stage::Decision { current: first, has_responded },
                };
                assert(tree@ =~= hand::opened(s).node);
                tree
            },
        }
    }

    /// The node currently facing the consumer.
    pub fn current(&self) -> (kind: NodeKind)
        ensures
            match self@.phase {
                Phase::Decision { seat, .. } => kind matches NodeKind::Decision { seat: s } && s
                    == seat,
                Phase::Terminal { .. } => kind == NodeKind::Terminal,
            },
    {
        match &self.stage {
            Stage::Decision { current, .. } => NodeKind::Decision { seat: *current },
            Stage::Terminal { .. } => NodeKind::Terminal,
        }
    }

    /// Legal actions at the current decision, or `None` at terminal.
    pub fn legal_actions<E: HandEvaluator>(&self, engine: &Engine<E>) -> (legal: Option<
        LegalActions,
    >)
        requires
            self.sound(),
        ensures
            match self@.phase {
                Phase::Decision { seat, responded } => legal == Some(
                    hand::legal_actions(engine.rules, self@.table, seat, !responded[seat]),
                ),
                Phase::Terminal { .. } => legal is None,
            },
    {
        match &self.stage {
            Stage::Decision { current, has_responded } => {
                let can_reopen = !has_responded[*current];
                Some(engine.compute_legal_actions(&self.state, *current, can_reopen))
            },
            Stage::Terminal { .. } => None,
        }
    }

    /// Apply an action at the current decision. Advances the tree through any
    /// chance events (board deals, showdown) until the next decision or the end.
    pub fn apply_action<E: HandEvaluator, S: EventSink>(
        &mut self,
        engine: &Engine<E>,
        action: Action,
        sink: &mut S,
    )
        requires
            old(self).sound(),
            old(self)@.phase is Decision,
            engine.rules.big_blind <= CHIP_LIMIT,
        ensures
            ({
                let step = hand::stepped(engine.rules, engine.evaluator, old(self)@, action);
                &&& final(self)@ == step.node
                &&& event::received(*old(sink), step.events, *final(sink))
            }),
            final(self).sound(),
            progress::turn_marked(final(self)@),
    {
        let ghost node = self@;
        let ghost before = *sink;
        proof {
            progress::acting_is_sound(node, action);
        }
        let seat: usize = match &self.stage {
            Stage::Decision { current, .. } => *current,
            Stage::Terminal { .. } => 0,
        };
        let normalized = engine.normalize_action(&self.state, seat, action);
        proof {
            soundness::normalized_is_proper(node.table, seat as int, action);
        }
        let reopened = engine.apply_action(&mut self.state, seat, normalized, sink);
        if let Stage::Decision { has_responded, .. } = &mut self.stage {
            engine::note_response(has_responded, seat, reopened);
        }
        assert(self@ =~= hand::acted(node, action));
        let ghost mid = *sink;
        self.advance(engine, sink);
        proof {
            event::received_in_turn(
                before,
                hand::acted_events(node, action),
                mid,
                hand::advanced(
                    engine.rules,
                    engine.evaluator,
                    hand::acted(node, action),
                ).events,
                *sink,
            );
        }
    }

    /// From just after an action to the next decision or the end.
    pub(crate) fn advance<E: HandEvaluator, S: EventSink>(&mut self, engine: &Engine<E>, sink: &mut S)
        requires
            progress::just_acted(old(self)@),
            engine.rules.big_blind <= CHIP_LIMIT,
        ensures
            ({
                let after = hand::advanced(engine.rules, engine.evaluator, old(self)@);
                &&& final(self)@ == after.node
                &&& event::received(*old(sink), after.events, *final(sink))
            }),
            final(self).sound(),
            progress::turn_marked(final(self)@),
    {
        let ghost node = self@;
        let ghost t = node.table;
        proof {
            progress::advancing_is_sound(engine.rules, engine.evaluator, node);
            progress::advances_mark_turns(engine.rules, engine.evaluator, node);
            progress::next_is_a_seat(t, node.phase->responded, node.phase->seat);
            soundness::none_marked_counts_zero(model::in_play_marks(t.seats));
            soundness::first_marked_finds(model::in_play_marks(t.seats), 0);
        }
        // Everybody else folded.
        if self.state.players_still_in() == 1 {
            let winner: usize = match engine::first_in_play(&self.state.players) {
                Some(w) => w,
                None => 0,
            };
            let chip_deltas = engine.award_uncontested(&mut self.state, winner);
            self.state.action_on = None;
            self.stage = Stage::Terminal { chip_deltas };
            assert(self@ =~= hand::advanced(engine.rules, engine.evaluator, node).node);
            return;
        }
        // Somebody still has to act in this round.
        let next = match &self.stage {
            Stage::Decision { current, has_responded } => {
                engine::next_unsettled(&self.state, has_responded, *current)
            },
            Stage::Terminal { .. } => None,
        };
        if let Some(s) = next {
            if let Stage::Decision { current, .. } = &mut self.stage {
                *current = s;
            }
            self.state.action_on = Some(s);
            assert(self@ =~= hand::advanced(engine.rules, engine.evaluator, node).node);
            return;
        }
        // The round is over.
        proof {
            soundness::amounts_within_limit(t);
            progress::collected_is_between_rounds(t, node.order, node.dealt);
        }
        pot_calc::collect_street_bets(&mut self.state.players, &mut self.state.pot);
        self.state.action_on = None;
        assert(self.state@ =~= Table { action_on: None, ..hand::collected(t) });
        self.deal_streets(engine, sink);
    }

    /// Deals streets until there is betting again, or the showdown.
    fn deal_streets<E: HandEvaluator, S: EventSink>(&mut self, engine: &Engine<E>, sink: &mut S)
        requires
            progress::between_rounds(
                old(self)@.table,
                old(self)@.order,
                old(self)@.dealt,
            ),
            engine.rules.big_blind <= CHIP_LIMIT,
        ensures
            ({
                let later = hand::streets(
                    engine.rules,
                    engine.evaluator,
                    old(self)@.table,
                    old(self)@.order,
                    old(self)@.dealt,
                );
                &&& final(self)@ == later.node
                &&& event::received(*old(sink), later.events, *final(sink))
            }),
        decreases hand::streets_left(old(self)@.table.street),
    {
        let ghost rules = engine.rules;
        let ghost e = engine.evaluator;
        let ghost t = self@.table;
        let ghost order = self@.order;
        let ghost dealt = self@.dealt;
        let ghost goal = hand::streets(rules, e, t, order, dealt);
        let (street, n_cards): (Street, usize) = match self.state.street {
            Street::Preflop => (Street::Flop, 3),
            Street::Flop => (Street::Turn, 1),
            Street::Turn => (Street::River, 1),
            Street::River | Street::Showdown => {
                engine.deal_remaining_board(&mut self.state, &mut self.deck, sink);
                let chip_deltas = engine.resolve_showdown(
                    &mut self.state,
                    Ghost(order),
                    Ghost(dealt),
                );
                self.state.street = Street::Showdown;
                self.stage = Stage::Terminal { chip_deltas };
                assert(self@ =~= goal.node);
                return;
            },
        };
        proof {
            progress::street_is_sound(rules, t, order, dealt, street, n_cards as int);
        }
        let ghost s0 = *sink;
        engine.begin_street(&mut self.state, street);
        let event = engine.deal_board_cards(
            &mut self.state,
            &mut self.deck,
            n_cards,
            street,
            sink,
        );
        let ghost t1 = hand::street_dealt(rules, t, order, dealt, street, n_cards as int);
        assert(self.state@ =~= t1);
        proof {
            soundness::next_marked_finds(model::active_marks(t1.seats), t1.dealer as int);
        }
        if engine::active_count(&self.state.players) >= 2 {
            if let Some(first) = engine::next_active_after(self.state.dealer, &self.state.players) {
                let n: usize = self.state.players.len();
                self.stage = Stage::Decision { current: first, has_responded: all_false(n) };
                self.state.action_on = Some(first);
                assert(self@ =~= goal.node);
                return;
            }
        }
        // No betting on this street.
        proof {
            soundness::amounts_within_limit(t1);
            progress::nothing_to_collect(t1);
        }
        let ghost s1 = *sink;
        pot_calc::collect_street_bets(&mut self.state.players, &mut self.state.pot);
        assert(self.state@ =~= hand::collected(t1));
        self.deal_streets(engine, sink);
        proof {
            event::received_in_turn(
                s0,
                seq![event@],
                s1,
                hand::streets(rules, e, hand::collected(t1), order, dealt + n_cards).events,
                *sink,
            );
        }
    }

    /// Per-seat chip awards at terminal, or `None` while a decision is pending.
    pub fn utilities(&self) -> (r: Option<&Vec<i64>>)
        ensures
            match self@.phase {
                Phase::Decision { .. } => r is None,
                Phase::Terminal { deltas } => r matches Some(v) && engine::deltas_view(v@)
                    == deltas,
            },
    {
        match &self.stage {
            Stage::Terminal { chip_deltas } => Some(chip_deltas),
            Stage::Decision { .. } => None,
        }
    }

    /// The final result of the hand.
    pub fn into_result(self, hand_id: HandId) -> (result: HandResult)
        requires
            self.sound(),
            self@.phase is Terminal,
        ensures
            result@ == hand::outcome(hand_id, self@.table, self@.phase->deltas),
    {
        match &self.stage {
            Stage::Terminal { chip_deltas } => {
                proof {
                    let deltas = self@.phase->deltas;
                    assert forall|i: int| 0 <= i < chip_deltas@.len() implies 0
                        <= #[trigger] chip_deltas@[i] <= CHIP_LIMIT && self.state@.seats[i].committed
                        <= CHIP_LIMIT by {
                        assert(0 <= deltas[i] <= CHIP_LIMIT);
                    }
                }
                engine::build_result(hand_id, &self.state, chip_deltas)
            },
            Stage::Decision { .. } => HandResult { hand_id, board: Vec::new(), seats: Vec::new() },
        }
    }

    /// What the player to act sees, in owned form, or `None` at terminal.
    pub fn observation_owned<E: HandEvaluator>(&self, engine: &Engine<E>) -> (obs: Option<
        OwnedObservation,
    >)
        requires
            self.sound(),
        ensures
            match self@.phase {
                Phase::Decision { seat, responded } => obs matches Some(o) && o@ == hand::sight(
                    engine.rules,
                    self@.table,
                    responded,
                    seat,
                ) && o@.fair(),
                Phase::Terminal { .. } => obs is None,
            },
    {
        match &self.stage {
            Stage::Terminal { .. } => None,
            Stage::Decision { current, has_responded } => {
                let seat: usize = *current;
                let can_reopen = !has_responded[seat];
                let legal = engine.compute_legal_actions(&self.state, seat, can_reopen);
                assert(self.state@.seats[seat as int] == self.state.players@[seat as int]@);
                assert(model::in_play(self.state@.seats[seat as int]));
                match self.state.players[seat].hole_cards {
                    None => None,
                    Some(hole_cards) => {
                        let o = OwnedObservation {
                            hole_cards,
                            board: self.state.board.clone(),
                            pot: self.state.pot.clone(),
                            legal_actions: legal,
                            players: engine::public_players(&self.state),
                            street: self.state.street,
                            position: seat,
                            dealer: self.state.dealer,
                        };
                        proof {
                            let goal = hand::sight(
                                engine.rules,
                                self@.table,
                                has_responded@,
                                seat as int,
                            );
                            assert(o@ =~= goal);
                            assert(goal.cards() =~= hand::seven(self@.table, seat as int));
                        }
                        Some(o)
                    },
                }
            },
        }
    }
}

/// Owned form of [`Observation`], for use where the borrowed form's lifetime is
/// inconvenient.
pub struct OwnedObservation {
    pub hole_cards: [Card; 2],
    pub board: Board,
    pub pot: Pot,
    pub legal_actions: LegalActions,
    pub players: Vec<PublicPlayerState>,
    pub street: Street,
    pub position: SeatIndex,
    pub dealer: SeatIndex,
}

impl View for OwnedObservation {
    type V = Sight;

    open spec fn view(&self) -> Sight {
        Sight {
            hole: (self.hole_cards@[0], self.hole_cards@[1]),
            board: self.board@,
            main: self.pot.main as int,
            side: self.pot.side@,
            legal: self.legal_actions,
            players: self.players@,
            street: self.street,
            position: self.position,
            dealer: self.dealer,
        }
    }
}

impl OwnedObservation {
    /// Borrow as a standard observation.
    pub fn as_observation(&self) -> (obs: Observation<'_>)
        ensures
            obs@ == self@,
    {
        Observation {
            hole_cards: self.hole_cards,
            board: self.board.as_slice(),
            pot: &self.pot,
            legal_actions: self.legal_actions,
            players: self.players.as_slice(),
            street: self.street,
            position: self.position,
            dealer: self.dealer,
        }
    }
}

/// `n` times false.
pub(crate) fn all_false(n: usize) -> (v: Vec<bool>)
    ensures
        v@ == hand::none_marked(n as nat),
{
    let mut v: Vec<bool> = Vec::new();
    let mut i: usize = 0;
    while i < n
        invariant
            i <= n,
            v@ == hand::none_marked(i as nat),
        decreases n - i,
    {
        v.push(false);
        i = i + 1;
        assert(v@ =~= hand::none_marked(i as nat));
    }
    v
}

/// Every node that a tree reaches by fitting actions is in good order and says whose
/// turn it is. At the end there is one award for each seat, and together they are what
/// the seats committed, as long as the hand is contested.
pub proof fn trees_pay_out_the_pot<E: HandEvaluator>(
    s: hand::Setup,
    e: E,
    actions: Seq<Action>,
)
    requires
        progress::setup_ok(s),
        deck::full_deck(deck::shuffled(s.deck_seed)),
        1 <= s.rules.big_blind,
        hand::answers_fit(s, e, actions),
    ensures
        ({
            let node = laws::stepped_through(s.rules, e, hand::opened(s).node, actions);
            &&& soundness::node_sound(node)
            &&& progress::turn_marked(node)
            &&& node.table.seats.len() == s.stacks.len()
            &&& node.phase matches Phase::Terminal { deltas } ==> {
                &&& deltas.len() == s.stacks.len()
                &&& s.kinds is None || contest::contested(s) ==> model::total(deltas)
                    == model::total(model::commitments(node.table.seats))
            }
        }),
{
    laws::stepping_mirrors_running(s, e, actions);
    laws::hand_in_order(s, e, actions);
    let node = hand::played(s, e, actions).node;
    if actions.len() == 0 {
        progress::openings_mark_turns(s);
    } else {
        laws::fewer_answers_fit(s, e, actions);
        laws::hand_in_order(s, e, actions.drop_last());
        progress::steps_mark_turns(
            s.rules,
            e,
            hand::played(s, e, actions.drop_last()).node,
            actions.last(),
        );
    }
    if node.phase is Terminal && (s.kinds is None || contest::contested(s)) {
        laws::chips_are_conserved(s, e, actions);
    }
}

/// A tree that is stepped by the answers that the agents gave in a run of the hand ends
/// where the run ended, and its result is the run's result.
pub proof fn trees_end_as_runs_do<A: Agent, S: EventSink, E: HandEvaluator>(
    s: hand::Setup,
    e: E,
    answers: Seq<Action>,
    before: (Seq<A>, S),
    result: model::Outcome,
    after: (Seq<A>, S),
)
    requires
        run::hand_ran(s, e, answers, before, result, after),
    ensures
        ({
            let node = laws::stepped_through(s.rules, e, hand::opened(s).node, answers);
            &&& soundness::node_sound(node)
            &&& node.phase is Terminal
            &&& hand::outcome(s.hand_id, node.table, node.phase->deltas) == result
        }),
{
    laws::stepping_mirrors_running(s, e, answers);
}

} // verus!
