use vstd::prelude::*;

use crate::agent::PublicPlayerState;
use crate::cards::{deck, Card, Deck, HandEvaluator};
use crate::game::action::{Action, LegalActions};
use crate::game::event;
use crate::game::event::{EngineEvent, EventSink, HandResult, SeatOutcome};
use crate::game::hand;
use crate::game::hand::{Setup, CHIP_LIMIT};
use crate::game::lists::Board;
use crate::game::model;
use crate::game::model::{Event, Seat, Table};
use crate::game::pot_calc;
use crate::game::progress;
use crate::game::rules::{BetVariant, BettingRules};
use crate::game::soundness;
use crate::game::state;
use crate::game::state::{
    GameState, HandId, PlayerState, PlayerStatus, Pot, SeatIndex, SeatKind, Street,
};

verus! {

pub struct Engine<E: HandEvaluator> {
    pub rules: BettingRules,
    pub evaluator: E,
}

/// What a seat has and what it put in, taken together, are within the limit.
pub open spec fn roomy(t: Table) -> bool {
    forall|i: int|
        0 <= i < t.seats.len() ==> {
            &&& (#[trigger] t.seats[i]).bet + t.seats[i].stack <= CHIP_LIMIT
            &&& t.seats[i].committed + t.seats[i].stack <= CHIP_LIMIT
        }
}

/// The awards as mathematical numbers.
pub open spec fn deltas_view(deltas: Seq<i64>) -> Seq<int> {
    Seq::new(deltas.len(), |i: int| deltas[i] as int)
}

/// The seat designations as a sequence.
pub open spec fn kinds_view(kinds: Option<&[SeatKind]>) -> Option<Seq<SeatKind>> {
    match kinds {
        Some(k) => Some(k@),
        None => None,
    }
}

/// The seat index as a mathematical number.
pub open spec fn seat_number(seat: Option<usize>) -> Option<int> {
    match seat {
        Some(s) => Some(s as int),
        None => None,
    }
}

impl<E: HandEvaluator> Engine<E> {
    pub fn new(rules: BettingRules, evaluator: E) -> (engine: Self)
        ensures
            engine.rules == rules,
            engine.evaluator == evaluator,
    {
        Engine { rules, evaluator }
    }

    // -----------------------------------------------------------------------
    // Opening
    // -----------------------------------------------------------------------

    /// What a hand under these rules starts from.
    pub open spec fn setup(
        self,
        hand_id: HandId,
        deck_seed: u64,
        stacks: Seq<u32>,
        dealer: SeatIndex,
        seat_kinds: Option<&[SeatKind]>,
    ) -> Setup {
        Setup {
            rules: self.rules,
            hand_id,
            deck_seed,
            stacks,
            dealer,
            kinds: kinds_view(seat_kinds),
        }
    }

    pub(crate) fn init_state(&self, hand_id: HandId, stacks: &[u32], dealer: SeatIndex) -> (state:
        GameState)
        ensures
            forall|s: Setup|
                s.rules == self.rules && s.hand_id == hand_id && s.stacks == stacks@ && s.dealer
                    == dealer ==> state@ == #[trigger] hand::fresh_table(s),
    {
        let mut players: Vec<PlayerState> = Vec::new();
        let mut sat_out: Vec<bool> = Vec::new();
        let mut i: usize = 0;
        while i < stacks.len()
            invariant
                i <= stacks@.len(),
                players@.len() == i,
                sat_out@.len() == i,
                forall|k: int|
                    0 <= k < i ==> (#[trigger] players@[k]) == (PlayerState {
                        stack: stacks@[k],
                        hole_cards: None,
                        bet_this_street: 0,
                        total_committed: 0,
                        status: if stacks@[k] > 0 {
                            PlayerStatus::Active
                        } else {
                            PlayerStatus::Out
                        },
                    }),
                forall|k: int| 0 <= k < i ==> !(#[trigger] sat_out@[k]),
            decreases stacks@.len() - i,
        {
            let stack = stacks[i];
            players.push(
                PlayerState {
                    stack,
                    hole_cards: None,
                    bet_this_street: 0,
                    total_committed: 0,
                    status: if stack > 0 {
                        PlayerStatus::Active
                    } else {
                        PlayerStatus::Out
                    },
                },
            );
            sat_out.push(false);
            i = i + 1;
        }
        let state = GameState {
            hand_id,
            street: Street::Preflop,
            board: Board::new(),
            players,
            pot: Pot::default(),
            action_on: None,
            dealer,
            last_aggressor: None,
            current_bet: 0,
            min_raise_increment: self.rules.big_blind,
            cumulative_short_increment: 0,
            sat_out,
        };
        proof {
            assert forall|s: Setup|
                s.rules == self.rules && s.hand_id == hand_id && s.stacks == stacks@ && s.dealer
                    == dealer implies state@ == #[trigger] hand::fresh_table(s) by {
                assert(state@ =~= hand::fresh_table(s));
            }
        }
        state
    }

    /// Seat `seat` posts `amount`, or all it has; all-in is announced.
    fn post<S: EventSink>(
        &self,
        state: &mut GameState,
        seat: SeatIndex,
        amount: u32,
        sink: &mut S,
    )
        requires
            seat < old(state)@.seats.len(),
            old(state)@.seats[seat as int].bet + old(state)@.seats[seat as int].stack <= u32::MAX,
            old(state)@.seats[seat as int].committed + old(state)@.seats[seat as int].stack
                <= u32::MAX,
        ensures
            final(state)@ == hand::posted(old(state)@, seat as int, amount as int),
            event::received(
                *old(sink),
                hand::all_in_note(final(state)@, seat as int),
                *final(sink),
            ),
    {
        let mut p = state.players[seat];
        assert(p@ == state@.seats[seat as int]);
        let actual: u32 = if amount < p.stack {
            amount
        } else {
            p.stack
        };
        p.stack = p.stack - actual;
        p.bet_this_street = p.bet_this_street + actual;
        p.total_committed = p.total_committed + actual;
        let total_committed: u32 = p.total_committed;
        let broke = p.stack == 0;
        if broke {
            p.status = PlayerStatus::AllIn;
        }
        state.players[seat] = p;
        assert(state@ =~= hand::posted(old(state)@, seat as int, amount as int));
        if broke {
            let event = EngineEvent::PlayerAllIn { seat, total_committed };
            sink.on_event(&event);
            proof {
                event::received_one_more(
                    *old(sink),
                    Seq::<Event>::empty(),
                    *old(sink),
                    event@,
                    *sink,
                );
                assert(Seq::<Event>::empty().push(event@) =~= hand::all_in_note(
                    state@,
                    seat as int,
                ));
            }
        }
    }

    pub(crate) fn post_antes<S: EventSink>(&self, state: &mut GameState, sink: &mut S)
        requires
            roomy(old(state)@),
        ensures
            ({
                let (t, notes) = hand::with_antes(
                    old(state)@,
                    self.rules.ante as int,
                    old(state)@.seats.len() as int,
                );
                &&& final(state)@ == t
                &&& event::received(*old(sink), notes, *final(sink))
            }),
            roomy(final(state)@),
    {
        let ghost t0 = state@;
        let ante: u32 = self.rules.ante;
        let n = state.players.len();
        let mut seat: usize = 0;
        while seat < n
            invariant
                seat <= n == t0.seats.len(),
                t0 == old(state)@,
                state@.seats.len() == n,
                ante == self.rules.ante,
                state@ == hand::with_antes(t0, ante as int, seat as int).0,
                event::received(
                    *old(sink),
                    hand::with_antes(t0, ante as int, seat as int).1,
                    *sink,
                ),
                roomy(state@),
            decreases n - seat,
        {
            let ghost before = *sink;
            let ghost t1 = state@;
            assert(state@.seats[seat as int] == state.players@[seat as int]@);
            if state.players[seat].status == PlayerStatus::Active {
                self.post(state, seat, ante, sink);
                proof {
                    event::received_in_turn(
                        *old(sink),
                        hand::with_antes(t0, ante as int, seat as int).1,
                        before,
                        hand::all_in_note(state@, seat as int),
                        *sink,
                    );
                    assert(roomy(state@)) by {
                        assert forall|i: int| 0 <= i < state@.seats.len() implies {
                            &&& (#[trigger] state@.seats[i]).bet + state@.seats[i].stack
                                <= CHIP_LIMIT
                            &&& state@.seats[i].committed + state@.seats[i].stack <= CHIP_LIMIT
                        } by {
                            assert(t1.seats[i].bet + t1.seats[i].stack <= CHIP_LIMIT);
                        }
                    }
                }
            }
            seat = seat + 1;
        }
    }

    pub(crate) fn post_blinds<S: EventSink>(&self, state: &mut GameState, sink: &mut S)
        requires
            roomy(old(state)@),
            soundness::seating_sound(old(state)@),
            old(state)@.dealer < old(state)@.seats.len() || hand::still_in(old(state)@) >= 1,
        ensures
            ({
                let (t, notes) = hand::with_blinds(old(state)@, self.rules);
                &&& final(state)@ == t
                &&& event::received(*old(sink), notes, *final(sink))
            }),
    {
        let ghost t0 = state@;
        let sb: usize = self.sb_seat(state);
        let bb: usize = self.bb_seat(state);
        self.post(state, sb, self.rules.small_blind, sink);
        let ghost t1 = state@;
        let ghost mid = *sink;
        proof {
            assert(t0.seats[bb as int].bet + t0.seats[bb as int].stack <= CHIP_LIMIT);
            assert(t0.seats[sb as int].bet + t0.seats[sb as int].stack <= CHIP_LIMIT);
        }
        self.post(state, bb, self.rules.big_blind, sink);
        proof {
            event::received_in_turn(
                *old(sink),
                hand::all_in_note(t1, sb as int),
                mid,
                hand::all_in_note(state@, bb as int),
                *sink,
            );
        }
        state.current_bet = self.rules.big_blind;
        state.min_raise_increment = self.rules.big_blind;
        assert(state@ =~= hand::with_blinds(t0, self.rules).0);
    }

    pub(crate) fn sb_seat(&self, state: &GameState) -> (seat: SeatIndex)
        requires
            soundness::seating_sound(state@),
            state@.dealer < state@.seats.len() || hand::still_in(state@) >= 1,
        ensures
            seat == hand::small_blind_seat(state@),
            seat < state@.seats.len(),
    {
        // Heads-up, the dealer is the small blind.
        if state.dealer < state.players.len() && state.players_still_in() == 2 {
            assert(state@.seats[state.dealer as int] == state.players@[state.dealer as int]@);
            let status = state.players[state.dealer].status;
            if status == PlayerStatus::Active || status == PlayerStatus::AllIn {
                return state.dealer;
            }
        }
        match next_in_play_after(state.dealer, &state.players) {
            Some(seat) => seat,
            None => {
                proof {
                    let marks = model::in_play_marks(state@.seats);
                    soundness::next_marked_finds(marks, state@.dealer as int);
                    soundness::none_marked_counts_zero(marks);
                }
                state.dealer
            },
        }
    }

    pub(crate) fn bb_seat(&self, state: &GameState) -> (seat: SeatIndex)
        requires
            soundness::seating_sound(state@),
            state@.dealer < state@.seats.len() || hand::still_in(state@) >= 1,
        ensures
            seat == hand::big_blind_seat(state@),
            seat < state@.seats.len(),
    {
        let sb: usize = self.sb_seat(state);
        match next_in_play_after(sb, &state.players) {
            Some(seat) => seat,
            None => sb,
        }
    }

    pub(crate) fn deal_hole_cards<S: EventSink>(
        &self,
        state: &mut GameState,
        deck: &mut Deck,
        sink: &mut S,
    )
        requires
            old(deck).dealt() + 2 * model::count(model::in_play_marks(old(state)@.seats)) <= 52,
        ensures
            ({
                let (t, dealt, notes) = hand::with_holes(
                    old(state)@,
                    old(deck).order(),
                    old(deck).dealt(),
                    old(state)@.seats.len() as int,
                );
                &&& final(state)@ == t
                &&& final(deck).dealt() == dealt
                &&& event::received(*old(sink), notes, *final(sink))
            }),
            final(deck).order() == old(deck).order(),
            final(deck).spec_seed() == old(deck).spec_seed(),
    {
        let ghost t0 = state@;
        let ghost marks = model::in_play_marks(t0.seats);
        let ghost order = deck.order();
        let ghost d0 = deck.dealt();
        let n = state.players.len();
        let mut seat: usize = 0;
        assert(marks.take(0) =~= Seq::<bool>::empty());
        while seat < n
            invariant
                seat <= n == t0.seats.len(),
                state@.seats.len() == n,
                marks == model::in_play_marks(t0.seats),
                forall|i: int|
                    seat <= i < n ==> #[trigger] state@.seats[i] == t0.seats[i],
                deck.order() == order,
                deck.spec_seed() == old(deck).spec_seed(),
                deck.dealt() == d0 + 2 * model::count(marks.take(seat as int)),
                d0 + 2 * model::count(marks) <= 52,
                (state@, deck.dealt()) == ({
                    let (t, dealt, notes) = hand::with_holes(t0, order, d0, seat as int);
                    (t, dealt)
                }),
                event::received(
                    *old(sink),
                    hand::with_holes(t0, order, d0, seat as int).2,
                    *sink,
                ),
            decreases n - seat,
        {
            proof {
                assert(marks.take(seat + 1).drop_last() =~= marks.take(seat as int));
                soundness::count_prefix(marks, seat + 1);
            }
            let mut p = state.players[seat];
            assert(state@.seats[seat as int] == p@);
            assert(state@.seats[seat as int] == t0.seats[seat as int]);
            if p.status == PlayerStatus::Active || p.status == PlayerStatus::AllIn {
                let ghost t1 = state@;
                let ghost before = *sink;
                let first = deck.deal();
                let second = deck.deal();
                let cards: [Card; 2] = [first, second];
                p.hole_cards = Some(cards);
                state.players[seat] = p;
                let event = EngineEvent::HoleCardsDealt { seat, cards };
                sink.on_event(&event);
                proof {
                    event::received_one_more(
                        *old(sink),
                        hand::with_holes(t0, order, d0, seat as int).2,
                        before,
                        event@,
                        *sink,
                    );
                    assert(state@ =~= hand::with_holes(t0, order, d0, seat + 1).0);
                }
            }
            seat = seat + 1;
        }
        assert(marks.take(n as int) =~= marks);
    }

    /// Dead hands are folded and flagged for exclusion from statistics. Their blinds
    /// have already been posted as normal blinds.
    pub(crate) fn fold_dead_hands(&self, state: &mut GameState, seat_kinds: Option<&[SeatKind]>)
        requires
            old(state)@.sat_out.len() == old(state)@.seats.len(),
            seat_kinds matches Some(kinds) ==> kinds@.len() == old(state)@.seats.len(),
        ensures
            final(state)@ == hand::with_dead_hands(old(state)@, kinds_view(seat_kinds)),
    {
        let ghost t0 = state@;
        if let Some(kinds) = seat_kinds {
            let ghost goal = hand::with_dead_hands(t0, Some(kinds@));
            let mut seat: usize = 0;
            while seat < kinds.len()
                invariant
                    seat <= kinds@.len() == t0.seats.len(),
                    t0.sat_out.len() == t0.seats.len(),
                    goal == hand::with_dead_hands(t0, Some(kinds@)),
                    state@.seats.len() == t0.seats.len(),
                    state@.sat_out.len() == t0.seats.len(),
                    state@ == (Table { seats: state@.seats, sat_out: state@.sat_out, ..t0 }),
                    forall|i: int|
                        0 <= i < seat ==> #[trigger] state@.seats[i] == goal.seats[i],
                    forall|i: int|
                        0 <= i < seat ==> #[trigger] state@.sat_out[i] == goal.sat_out[i],
                    forall|i: int|
                        seat <= i < t0.seats.len() ==> #[trigger] state@.seats[i] == t0.seats[i],
                    forall|i: int|
                        seat <= i < t0.seats.len() ==> #[trigger] state@.sat_out[i]
                            == t0.sat_out[i],
                decreases kinds@.len() - seat,
            {
                let ghost before = state@;
                let mut p = state.players[seat];
                assert(before.seats[seat as int] == p@);
                assert(before.seats[seat as int] == t0.seats[seat as int]);
                assert(before.sat_out[seat as int] == t0.sat_out[seat as int]);
                if kinds[seat] == SeatKind::DeadHand && p.status != PlayerStatus::Out {
                    p.status = PlayerStatus::Folded;
                    state.players[seat] = p;
                    state.sat_out[seat] = true;
                    assert(state@.seats =~= before.seats.update(seat as int, p@));
                    assert(state@.sat_out =~= before.sat_out.update(seat as int, true));
                    assert(state@ =~= Table {
                        seats: state@.seats,
                        sat_out: state@.sat_out,
                        ..t0
                    });
                }
                seat = seat + 1;
            }
            assert(state@ =~= goal);
        }
    }

    // -----------------------------------------------------------------------
    // Betting
    // -----------------------------------------------------------------------

    /// Rewrite an agent-submitted action into a rules-legal one before dispatch
    /// (TDA Rule 43).
    ///
    /// * A `Raise` that would consume the player's entire stack is an `AllIn`, so
    ///   that short-all-in reopening semantics (Rule 47A) apply.
    /// * A `Raise` below the minimum raise that would *not* exhaust the stack is
    ///   illegal under TDA: there is no "short" raise that is not all-in. It is
    ///   downgraded to `Call` (or `Check` if nothing is owed).
    pub(crate) fn normalize_action(
        &self,
        state: &GameState,
        seat: SeatIndex,
        action: Action,
    ) -> (normalized: Action)
        requires
            seat < state@.seats.len(),
            soundness::betting_sound(state@),
        ensures
            normalized == hand::normalized(state@, seat as int, action),
    {
        assert(state@.seats[seat as int] == state.players@[seat as int]@);
        if let Action::Raise(amount) = action {
            let p = &state.players[seat];
            let additional: u32 = amount.saturating_sub(p.bet_this_street);
            if additional >= p.stack {
                return Action::AllIn;
            }
            let min_raise_total: u32 = state.current_bet + state.min_raise_increment;
            if amount < min_raise_total {
                let owed: u32 = state.current_bet.saturating_sub(p.bet_this_street);
                return if owed == 0 {
                    Action::Check
                } else {
                    Action::Call
                };
            }
        }
        action
    }

    pub(crate) fn compute_legal_actions(
        &self,
        state: &GameState,
        seat: SeatIndex,
        can_reopen: bool,
    ) -> (legal: LegalActions)
        requires
            soundness::table_sound(state@),
            seat < state@.seats.len(),
        ensures
            legal == hand::legal_actions(self.rules, state@, seat as int, can_reopen),
    {
        proof {
            soundness::amounts_within_limit(state@);
            assert(soundness::seat_sound(state@.seats[seat as int]));
        }
        assert(state@.seats[seat as int] == state.players@[seat as int]@);
        let p = &state.players[seat];
        let owed: u32 = state.current_bet.saturating_sub(p.bet_this_street);
        let reach: u32 = p.stack + p.bet_this_street;
        let min_raise_total: u32 = state.current_bet + state.min_raise_increment;
        // Who acted since the last full raise must call a short all-in but cannot
        // raise it.
        let can_raise = can_reopen && match self.rules.variant {
            BetVariant::NoLimit | BetVariant::PotLimit => reach > min_raise_total,
            BetVariant::FixedLimit => reach >= min_raise_total,
        };
        let max_raise: u32 = match self.rules.variant {
            BetVariant::NoLimit => reach,
            BetVariant::PotLimit => {
                // The call, and the pot as it is after the call.
                let pot_after_call: u64 = state.pot.total() as u64 + owed as u64;
                let pot_raise: u64 = owed as u64 + pot_after_call;
                if (reach as u64) < pot_raise {
                    reach
                } else {
                    pot_raise as u32
                }
            },
            BetVariant::FixedLimit => min_raise_total,
        };
        LegalActions {
            can_check: owed == 0,
            can_call: owed > 0 && p.stack > owed,
            call_amount: if owed < p.stack {
                owed
            } else {
                p.stack
            },
            can_raise,
            min_raise: min_raise_total,
            max_raise,
            all_in_amount: p.stack,
        }
    }

    /// Apply a normalized action. Returns `true` if the action reopens the betting,
    /// so that everybody else has to respond again.
    pub(crate) fn apply_action<S: EventSink>(
        &self,
        state: &mut GameState,
        seat: SeatIndex,
        action: Action,
        sink: &mut S,
    ) -> (reopened: bool)
        requires
            soundness::table_sound(old(state)@),
            seat < old(state)@.seats.len(),
            old(state)@.seats[seat as int].status == PlayerStatus::Active,
            soundness::proper(old(state)@, seat as int, action),
        ensures
            ({
                let (t, again, notes) = hand::action_effect(old(state)@, seat as int, action);
                &&& final(state)@ == t
                &&& reopened == again
                &&& event::received(
                    *old(sink),
                    notes.push(hand::action_event(t, seat as int, action)),
                    *final(sink),
                )
            }),
            soundness::table_sound(final(state)@),
    {
        let ghost t0 = state@;
        let ghost goal = hand::action_effect(t0, seat as int, action).0;
        let ghost notes = hand::action_effect(t0, seat as int, action).2;
        proof {
            soundness::amounts_within_limit(t0);
            soundness::action_keeps_table(t0, seat as int, action);
            soundness::amounts_within_limit(goal);
            assert(soundness::seat_sound(t0.seats[seat as int]));
        }
        assert(t0.seats[seat as int] == state.players@[seat as int]@);
        let mut p = state.players[seat];
        let mut reopened = false;
        let mut announce: Option<u32> = None;
        match action {
            Action::Fold => {
                p.status = PlayerStatus::Folded;
                state.players[seat] = p;
            },
            Action::Check => {},
            Action::Call => {
                let owed: u32 = state.current_bet.saturating_sub(p.bet_this_street);
                let paid: u32 = if owed < p.stack {
                    owed
                } else {
                    p.stack
                };
                p.stack = p.stack - paid;
                p.bet_this_street = p.bet_this_street + paid;
                p.total_committed = p.total_committed + paid;
                if p.stack == 0 {
                    p.status = PlayerStatus::AllIn;
                    announce = Some(p.total_committed);
                }
                state.players[seat] = p;
            },
            Action::Raise(amount) => {
                // A full raise that does not exhaust the stack.
                let additional: u32 = amount.saturating_sub(p.bet_this_street);
                p.stack = p.stack - additional;
                p.bet_this_street = p.bet_this_street + additional;
                p.total_committed = p.total_committed + additional;
                let new_total: u32 = p.bet_this_street;
                state.players[seat] = p;
                state.min_raise_increment = new_total - state.current_bet;
                state.cumulative_short_increment = 0;
                state.current_bet = new_total;
                state.last_aggressor = Some(seat);
                reopened = true;
            },
            Action::AllIn => {
                let all_in_total: u32 = p.bet_this_street + p.stack;
                p.total_committed = p.total_committed + p.stack;
                p.bet_this_street = all_in_total;
                p.stack = 0;
                p.status = PlayerStatus::AllIn;
                announce = Some(p.total_committed);
                state.players[seat] = p;
                if all_in_total > state.current_bet {
                    let increment: u32 = all_in_total - state.current_bet;
                    state.current_bet = all_in_total;
                    state.last_aggressor = Some(seat);
                    if increment >= state.min_raise_increment {
                        // Full raise: pin the new minimum and reopen the action.
                        state.min_raise_increment = increment;
                        state.cumulative_short_increment = 0;
                        reopened = true;
                    } else {
                        // Short all-in: the minimum stays pinned to the last full
                        // raise (Rule 47A). Once short ones total a full raise, the
                        // betting reopens.
                        state.cumulative_short_increment = state.cumulative_short_increment.saturating_add(
                            increment,
                        );
                        if state.cumulative_short_increment >= state.min_raise_increment {
                            reopened = true;
                        }
                    }
                }
            },
        }
        assert(state@.seats =~= goal.seats);
        assert(state@ =~= goal);
        let ghost before = *sink;
        if let Some(total_committed) = announce {
            let event = EngineEvent::PlayerAllIn { seat, total_committed };
            sink.on_event(&event);
            proof {
                event::received_one_more(before, Seq::<Event>::empty(), before, event@, *sink);
                assert(Seq::<Event>::empty().push(event@) =~= notes);
            }
        } else {
            assert(notes =~= Seq::<Event>::empty());
        }
        let pot_total: u32 = chips_in_middle(state);
        let event = EngineEvent::ActionTaken { seat, action, pot_total };
        let ghost mid = *sink;
        sink.on_event(&event);
        proof {
            event::received_one_more(before, notes, mid, event@, *sink);
        }
        reopened
    }

    // -----------------------------------------------------------------------
    // Streets
    // -----------------------------------------------------------------------

    pub(crate) fn begin_street(&self, state: &mut GameState, street: Street)
        ensures
            final(state)@ == hand::begun(self.rules, old(state)@, street),
    {
        let ghost t0 = state@;
        state.street = street;
        state.current_bet = 0;
        state.min_raise_increment = self.rules.big_blind;
        state.cumulative_short_increment = 0;
        state.last_aggressor = None;
        let mut i: usize = 0;
        let ghost mid = state@;
        while i < state.players.len()
            invariant
                i <= state.players@.len() == t0.seats.len(),
                state@ == (Table { seats: state@.seats, ..mid }),
                forall|k: int|
                    0 <= k < i ==> #[trigger] state@.seats[k] == (Seat { bet: 0, ..t0.seats[k] }),
                forall|k: int|
                    i <= k < t0.seats.len() ==> #[trigger] state@.seats[k] == t0.seats[k],
            decreases state.players@.len() - i,
        {
            let ghost before = state@;
            let mut p = state.players[i];
            assert(before.seats[i as int] == p@);
            p.bet_this_street = 0;
            state.players[i] = p;
            assert(state@.seats =~= before.seats.update(i as int, p@));
            assert(state@ =~= Table { seats: state@.seats, ..mid });
            i = i + 1;
        }
        assert(state@ =~= hand::begun(self.rules, t0, street));
    }

    /// Deals the next `n` cards to the board and announces them as the cards of
    /// `street`. Returns the announcement.
    pub(crate) fn deal_board_cards<S: EventSink>(
        &self,
        state: &mut GameState,
        deck: &mut Deck,
        n: usize,
        street: Street,
        sink: &mut S,
    ) -> (event: EngineEvent)
        requires
            old(deck).dealt() + n <= 52,
            0 <= old(deck).dealt(),
            old(deck).order().len() == 52,
        ensures
            event@ == hand::board_event(
                old(deck).order(),
                old(deck).dealt(),
                street,
                n as int,
            ),
            final(state)@ == (Table {
                board: old(state)@.board + old(deck).order().subrange(
                    old(deck).dealt(),
                    old(deck).dealt() + n,
                ),
                ..old(state)@
            }),
            final(deck).order() == old(deck).order(),
            final(deck).spec_seed() == old(deck).spec_seed(),
            final(deck).dealt() == old(deck).dealt() + n,
            event::received(*old(sink), seq![event@], *final(sink)),
    {
        let ghost order = deck.order();
        let ghost d = deck.dealt();
        let mut cards: Vec<Card> = Vec::new();
        let mut i: usize = 0;
        while i < n
            invariant
                i <= n,
                0 <= d,
                d + n <= 52,
                order.len() == 52,
                deck.order() == order,
                deck.spec_seed() == old(deck).spec_seed(),
                deck.dealt() == d + i,
                cards@ == order.subrange(d, d + i),
            decreases n - i,
        {
            cards.push(deck.deal());
            assert(order.subrange(d, d + i + 1) =~= order.subrange(d, d + i).push(order[d + i]));
            i = i + 1;
        }
        state.board.extend(&cards);
        assert(state@ =~= Table {
            board: old(state)@.board + order.subrange(d, d + n),
            ..old(state)@
        });
        let event = EngineEvent::BoardDealt { street, cards };
        sink.on_event(&event);
        proof {
            event::received_one_more(
                *old(sink),
                Seq::<Event>::empty(),
                *old(sink),
                event@,
                *sink,
            );
            assert(Seq::<Event>::empty().push(event@) =~= seq![event@]);
        }
        event
    }

    /// Deals `street` where the board has fewer than `size` cards.
    fn fill_street<S: EventSink>(
        &self,
        state: &mut GameState,
        deck: &mut Deck,
        street: Street,
        n: usize,
        size: usize,
        sink: &mut S,
    )
        requires
            0 <= old(deck).dealt(),
            old(deck).order().len() == 52,
            size <= 5,
            old(state)@.board.len() < 5 ==> old(deck).dealt() + 5 - old(state)@.board.len() <= 52,
        ensures
            ({
                let (t, dealt, notes) = hand::street_filled(
                    (old(state)@, old(deck).dealt(), Seq::empty()),
                    old(deck).order(),
                    street,
                    n as int,
                    size as int,
                );
                &&& final(state)@ == t
                &&& final(deck).dealt() == dealt
                &&& event::received(*old(sink), notes, *final(sink))
            }),
            final(deck).order() == old(deck).order(),
            final(deck).spec_seed() == old(deck).spec_seed(),
            final(state)@.board.len() < 5 ==> final(deck).dealt() + 5 - final(state)@.board.len()
                <= 52,
    {
        let len: usize = state.board.len();
        if len < size {
            let missing: usize = 5 - len;
            let k: usize = if n < missing {
                n
            } else {
                missing
            };
            let ghost d = deck.dealt();
            let ghost order = deck.order();
            let _ = self.deal_board_cards(state, deck, k, street, sink);
            assert(Seq::<Event>::empty().push(hand::board_event(order, d, street, k as int))
                =~= seq![hand::board_event(order, d, street, k as int)]);
            assert(order.subrange(d, d + k).len() == k);
        }
    }

    /// Deals what is missing of flop, turn and river.
    pub(crate) fn deal_remaining_board<S: EventSink>(
        &self,
        state: &mut GameState,
        deck: &mut Deck,
        sink: &mut S,
    )
        requires
            0 <= old(deck).dealt(),
            old(deck).order().len() == 52,
            old(state)@.board.len() < 5 ==> old(deck).dealt() + 5 - old(state)@.board.len() <= 52,
        ensures
            ({
                let (t, dealt, notes) = hand::run_out(
                    old(state)@,
                    old(deck).order(),
                    old(deck).dealt(),
                );
                &&& final(state)@ == t
                &&& final(deck).dealt() == dealt
                &&& event::received(*old(sink), notes, *final(sink))
            }),
            final(deck).order() == old(deck).order(),
            final(deck).spec_seed() == old(deck).spec_seed(),
    {
        let ghost order = deck.order();
        let ghost flop = hand::street_filled(
            (state@, deck.dealt(), Seq::empty()),
            order,
            Street::Flop,
            3,
            3,
        );
        let ghost turn = hand::street_filled(flop, order, Street::Turn, 1, 4);
        let ghost river = hand::street_filled(turn, order, Street::River, 1, 5);
        let ghost s0 = *sink;
        self.fill_street(state, deck, Street::Flop, 3, 3, sink);
        let ghost s1 = *sink;
        let ghost n2 = hand::street_filled(
            (state@, deck.dealt(), Seq::empty()),
            order,
            Street::Turn,
            1,
            4,
        ).2;
        self.fill_street(state, deck, Street::Turn, 1, 4, sink);
        let ghost s2 = *sink;
        let ghost n3 = hand::street_filled(
            (state@, deck.dealt(), Seq::empty()),
            order,
            Street::River,
            1,
            5,
        ).2;
        self.fill_street(state, deck, Street::River, 1, 5, sink);
        proof {
            event::received_in_turn(s0, flop.2, s1, n2, s2);
            assert(flop.2 + n2 =~= turn.2);
            event::received_in_turn(s0, turn.2, s2, n3, *sink);
            assert(turn.2 + n3 =~= river.2);
        }
    }

    // -----------------------------------------------------------------------
    // Showdown & awards
    // -----------------------------------------------------------------------

    /// Ranks the hand of `seat` at showdown.
    fn showdown_rank(
        &self,
        state: &GameState,
        seat: SeatIndex,
        Ghost(order): Ghost<Seq<Card>>,
        Ghost(dealt): Ghost<int>,
    ) -> (rank: u32)
        requires
            seat < state@.seats.len(),
            model::in_play(state@.seats[seat as int]),
            soundness::cards_sound(state@, order, dealt),
            state@.board.len() == 5,
        ensures
            rank == hand::strength(self.evaluator, state@, seat as int),
    {
        assert(state@.seats[seat as int] == state.players@[seat as int]@);
        let board = state.board.as_slice();
        match state.players[seat].hole_cards {
            Some(hole) => {
                let seven: [Card; 7] = [
                    hole[0],
                    hole[1],
                    board[0],
                    board[1],
                    board[2],
                    board[3],
                    board[4],
                ];
                proof {
                    assert(seven@ =~= hand::seven(state@, seat as int));
                    soundness::dealt_cards_are_cards(seven@, order, dealt);
                    self.evaluator.accepts_different_cards(seven@);
                }
                self.evaluator.rank_7(seven).0
            },
            None => 0,
        }
    }

    /// Marks the seats among `eligible` whose hand no other beats.
    fn find_winners(
        &self,
        state: &GameState,
        eligible: &crate::game::lists::SeatList,
        Ghost(order): Ghost<Seq<Card>>,
        Ghost(dealt): Ghost<int>,
    ) -> (marks: Vec<bool>)
        requires
            soundness::cards_sound(state@, order, dealt),
            state@.board.len() == 5,
            eligible@.len() >= 1,
            forall|k: int|
                0 <= k < eligible@.len() ==> (#[trigger] eligible@[k]) < state@.seats.len()
                    && model::in_play(state@.seats[eligible@[k] as int]),
        ensures
            marks@ == hand::winner_marks(self.evaluator, state@, eligible@),
    {
        let ghost e = self.evaluator;
        let ghost t = state@;
        let n = eligible.len();
        let mut ranks: Vec<u32> = Vec::new();
        let mut best: u32 = 0;
        let mut k: usize = 0;
        while k < n
            invariant
                k <= n == eligible@.len(),
                n >= 1,
                e == self.evaluator,
                t == state@,
                soundness::cards_sound(t, order, dealt),
                t.board.len() == 5,
                forall|j: int|
                    0 <= j < eligible@.len() ==> (#[trigger] eligible@[j]) < t.seats.len()
                        && model::in_play(t.seats[eligible@[j] as int]),
                ranks@.len() == k,
                forall|j: int|
                    0 <= j < k ==> #[trigger] ranks@[j] == hand::strength(
                        e,
                        t,
                        eligible@[j] as int,
                    ),
                k == 0 ==> best == 0,
                k > 0 ==> best == hand::best_strength(e, t, eligible@.take(k as int)),
            decreases n - k,
        {
            let seat = eligible.get(k);
            let rank: u32 = self.showdown_rank(state, seat, Ghost(order), Ghost(dealt));
            proof {
                assert(eligible@.take(k + 1).drop_last() =~= eligible@.take(k as int));
                assert(eligible@.take(k + 1).last() == seat);
                if k == 0 {
                    assert(hand::best_strength(e, t, eligible@.take(0)) == -1);
                }
            }
            ranks.push(rank);
            if k == 0 || rank > best {
                best = rank;
            }
            k = k + 1;
        }
        assert(eligible@.take(n as int) =~= eligible@);
        let mut marks: Vec<bool> = Vec::new();
        let seats = state.players.len();
        let mut i: usize = 0;
        while i < seats
            invariant
                i <= seats == t.seats.len(),
                marks@.len() == i,
                forall|j: int| 0 <= j < i ==> !(#[trigger] marks@[j]),
            decreases seats - i,
        {
            marks.push(false);
            i = i + 1;
        }
        let mut k: usize = 0;
        while k < n
            invariant
                k <= n == eligible@.len(),
                n == ranks@.len(),
                marks@.len() == t.seats.len(),
                t.seats.len() <= usize::MAX,
                best == hand::best_strength(e, t, eligible@),
                forall|j: int|
                    0 <= j < eligible@.len() ==> (#[trigger] eligible@[j]) < t.seats.len(),
                forall|j: int|
                    0 <= j < n ==> #[trigger] ranks@[j] == hand::strength(
                        e,
                        t,
                        eligible@[j] as int,
                    ),
                forall|s: int|
                    0 <= s < marks@.len() ==> (#[trigger] marks@[s] <==> (eligible@.take(
                        k as int,
                    ).contains(s as usize) && hand::strength(e, t, s) == best)),
            decreases n - k,
        {
            let seat = eligible.get(k);
            let ghost before = marks@;
            assert(ranks@[k as int] == hand::strength(e, t, eligible@[k as int] as int));
            if ranks[k] == best {
                marks[seat] = true;
            }
            proof {
                let now = eligible@.take(k + 1);
                let then = eligible@.take(k as int);
                assert(now =~= then.push(seat));
                assert forall|s: int| 0 <= s < marks@.len() implies (#[trigger] marks@[s] <==> (
                now.contains(s as usize) && hand::strength(e, t, s) == best)) by {
                    assert(before[s] <==> (then.contains(s as usize) && hand::strength(e, t, s)
                        == best));
                    if s == seat {
                        assert(now[k as int] == s as usize);
                    } else {
                        if now.contains(s as usize) {
                            let x = choose|x: int| 0 <= x < now.len() && now[x] == s as usize;
                            assert(then[x] == s as usize);
                        }
                        if then.contains(s as usize) {
                            let x = choose|x: int| 0 <= x < then.len() && then[x] == s as usize;
                            assert(now[x] == s as usize);
                        }
                    }
                }
            }
            k = k + 1;
        }
        assert(eligible@.take(n as int) =~= eligible@);
        assert(marks@ =~= hand::winner_marks(e, t, eligible@));
        marks
    }

    /// Gives one pot to its winners.
    fn pay_pot(
        &self,
        state: &GameState,
        amount: u32,
        eligible: &crate::game::lists::SeatList,
        deltas: &mut Vec<i64>,
        Ghost(order): Ghost<Seq<Card>>,
        Ghost(dealt): Ghost<int>,
    )
        requires
            soundness::seating_sound(state@),
            soundness::funds_sound(state@),
            soundness::cards_sound(state@, order, dealt),
            state@.board.len() == 5,
            pot_calc::winnable(state@.seats, (amount, eligible@)),
            old(deltas)@.len() == state@.seats.len(),
            forall|i: int|
                0 <= i < old(deltas)@.len() ==> 0 <= #[trigger] old(deltas)@[i],
            model::total(deltas_view(old(deltas)@)) + amount <= CHIP_LIMIT,
        ensures
            final(deltas)@.len() == old(deltas)@.len(),
            deltas_view(final(deltas)@) == hand::with_pot_paid(
                self.evaluator,
                state@,
                deltas_view(old(deltas)@),
                (amount, eligible@),
            ),
    {
        let ghost e = self.evaluator;
        let ghost t = state@;
        let ghost d0 = deltas_view(deltas@);
        let ghost goal = hand::with_pot_paid(e, t, d0, (amount, eligible@));
        let n: usize = deltas.len();
        proof {
            soundness::pot_is_paid_exactly(e, t, d0, (amount, eligible@));
            model::total_bounds(d0, n as int);
            assert(d0.take(n as int) =~= d0);
            assert forall|k: int| 0 <= k < eligible@.len() implies (#[trigger] eligible@[k])
                < t.seats.len() && model::in_play(t.seats[eligible@[k] as int]) by {
                assert(t.seats[eligible@[k] as int].committed > 0);
            }
        }
        if eligible.len() == 1 {
            let seat: usize = eligible.get(0);
            assert(d0[seat as int] <= model::total(d0));
            deltas[seat] = deltas[seat] + amount as i64;
            assert(deltas_view(deltas@) =~= goal);
            return;
        }
        let winners = self.find_winners(state, eligible, Ghost(order), Ghost(dealt));
        proof {
            soundness::funds_within_limit(t);
            assert forall|i: int| 0 <= i < t.seats.len() && winners@[i] implies model::commitments(
                t.seats,
            )[i] >= 1 by {
                let k = choose|k: int| 0 <= k < eligible@.len() && eligible@[k] == i as usize;
                assert(t.seats[eligible@[k] as int].committed > 0);
            }
            soundness::count_below_total(winners@, model::commitments(t.seats));
        }
        let count: u32 = count_marked(&winners);
        let share: u32 = amount / count;
        let remainder: u32 = amount % count;
        proof {
            soundness::split_is_exact(amount as int, winners@, t.dealer as int);
            soundness::next_marked_finds(winners@, t.dealer as int);
        }
        // The odd chips go to the first winner left of the dealer.
        let first = next_marked_after(state.dealer, &winners);
        let mut i: usize = 0;
        while i < n
            invariant
                i <= n == deltas@.len(),
                n == winners@.len() == d0.len(),
                count == model::count(winners@),
                count >= 1,
                share == amount as int / count as int,
                remainder == amount as int % count as int,
                seat_number(first) == hand::next_marked(winners@, t.dealer as int, 1),
                forall|k: int|
                    0 <= k < n ==> 0 <= #[trigger] hand::split_share(
                        amount as int,
                        winners@,
                        t.dealer as int,
                        k,
                    ) <= amount,
                forall|k: int| 0 <= k < n ==> 0 <= #[trigger] d0[k] <= CHIP_LIMIT,
                forall|k: int|
                    0 <= k < i ==> #[trigger] deltas@[k] == d0[k] + hand::split_share(
                        amount as int,
                        winners@,
                        t.dealer as int,
                        k,
                    ),
                forall|k: int| i <= k < n ==> #[trigger] deltas@[k] == d0[k],
            decreases n - i,
        {
            assert(0 <= hand::split_share(amount as int, winners@, t.dealer as int, i as int)
                <= amount);
            let mut part: u32 = if winners[i] {
                share
            } else {
                0
            };
            let odd = match first {
                Some(seat) => seat == i,
                None => false,
            };
            if odd {
                part = part + remainder;
            }
            assert(part == hand::split_share(
                amount as int,
                winners@,
                t.dealer as int,
                i as int,
            ));
            assert(deltas@[i as int] == d0[i as int]);
            deltas[i] = deltas[i] + part as i64;
            i = i + 1;
        }
        assert(deltas_view(deltas@) =~= goal);
    }

    /// Gives every pot to its winners. Returns what each seat was awarded.
    pub(crate) fn resolve_showdown(
        &self,
        state: &mut GameState,
        Ghost(order): Ghost<Seq<Card>>,
        Ghost(dealt): Ghost<int>,
    ) -> (deltas: Vec<i64>)
        requires
            soundness::seating_sound(old(state)@),
            soundness::funds_sound(old(state)@),
            soundness::cards_sound(old(state)@, order, dealt),
            old(state)@.board.len() == 5,
        ensures
            deltas_view(deltas@) == hand::showdown(self.evaluator, old(state)@),
            final(state)@ == hand::paid_table(old(state)@, deltas_view(deltas@)),
    {
        let ghost e = self.evaluator;
        let ghost t = state@;
        proof {
            soundness::funds_within_limit(t);
            pot_calc::pots_hold_no_more(t.seats);
            pot_calc::pots_are_winnable(t.seats);
        }
        let pots = pot_calc::build_showdown_pots(&state.players);
        let ghost all = pots@;
        proof {
            soundness::pots_are_paid_exactly(e, t, all, all.len() as int);
            assert(all.take(all.len() as int) =~= all);
        }
        let n: usize = state.players.len();
        let mut deltas: Vec<i64> = zeros(n);
        let count: usize = pots.len();
        let mut k: usize = 0;
        assert(deltas_view(deltas@) =~= hand::with_pots_paid(e, t, all, 0));
        while k < count
            invariant
                k <= count == all.len(),
                all == pots@,
                t == state@,
                e == self.evaluator,
                soundness::seating_sound(t),
                soundness::funds_sound(t),
                soundness::cards_sound(t, order, dealt),
                t.board.len() == 5,
                deltas@.len() == t.seats.len(),
                deltas_view(deltas@) == hand::with_pots_paid(e, t, all, k as int),
                forall|p: int|
                    0 <= p < all.len() ==> pot_calc::winnable(t.seats, #[trigger] all[p]),
                pot_calc::pots_total(all) <= CHIP_LIMIT,
            decreases count - k,
        {
            let (amount, eligible) = pots.get(k);
            proof {
                assert(pot_calc::winnable(t.seats, all[k as int]));
                soundness::pots_are_paid_exactly(e, t, all, k as int);
                assert(all.take(k + 1).drop_last() =~= all.take(k as int));
                model::side_total_grows(all, k + 1);
                assert forall|i: int| 0 <= i < deltas@.len() implies 0 <= #[trigger] deltas@[i] by {
                    assert(deltas_view(deltas@)[i] >= 0);
                }
            }
            self.pay_pot(state, amount, eligible, &mut deltas, Ghost(order), Ghost(dealt));
            k = k + 1;
        }
        let ghost d = deltas_view(deltas@);
        proof {
            model::total_bounds(d, n as int);
            assert(d.take(n as int) =~= d);
        }
        let mut i: usize = 0;
        while i < n
            invariant
                i <= n == deltas@.len(),
                n == t.seats.len(),
                d == deltas_view(deltas@),
                state@ == (Table { seats: state@.seats, ..t }),
                state@.seats.len() == n,
                forall|j: int| 0 <= j < n ==> 0 <= #[trigger] d[j] <= CHIP_LIMIT,
                forall|j: int|
                    0 <= j < n ==> (#[trigger] t.seats[j]).stack + t.seats[j].committed
                        <= CHIP_LIMIT && t.seats[j].committed >= 0,
                forall|j: int|
                    0 <= j < i ==> #[trigger] state@.seats[j] == (Seat {
                        stack: t.seats[j].stack + d[j],
                        ..t.seats[j]
                    }),
                forall|j: int| i <= j < n ==> #[trigger] state@.seats[j] == t.seats[j],
            decreases n - i,
        {
            let ghost before = state@;
            let mut p = state.players[i];
            assert(before.seats[i as int] == p@);
            assert(before.seats[i as int] == t.seats[i as int]);
            assert(0 <= d[i as int] <= CHIP_LIMIT);
            p.stack = (p.stack as i64 + deltas[i]) as u32;
            state.players[i] = p;
            assert(state@.seats =~= before.seats.update(i as int, p@));
            assert(state@ =~= Table { seats: state@.seats, ..t });
            i = i + 1;
        }
        assert(state@ =~= hand::paid_table(t, d));
        deltas
    }

    /// Everything in the middle goes to `winner`.
    pub(crate) fn award_uncontested(&self, state: &mut GameState, winner: SeatIndex) -> (deltas:
        Vec<i64>)
        requires
            soundness::table_sound(old(state)@),
            winner < old(state)@.seats.len(),
        ensures
            (final(state)@, deltas_view(deltas@)) == hand::awarded(old(state)@, winner as int),
    {
        let ghost t = state@;
        proof {
            soundness::amounts_within_limit(t);
            soundness::collecting_keeps_table(t);
            soundness::amounts_within_limit(hand::collected(t));
        }
        pot_calc::collect_street_bets(&mut state.players, &mut state.pot);
        assert(state@ =~= hand::collected(t));
        let ghost t1 = state@;
        let total: u32 = state.pot.total();
        let n: usize = state.players.len();
        let mut deltas: Vec<i64> = zeros(n);
        deltas[winner] = total as i64;
        let mut p = state.players[winner];
        assert(t1.seats[winner as int] == p@);
        proof {
            soundness::stack_fits_with_pot(t1, winner as int);
        }
        p.stack = p.stack + total;
        state.players[winner] = p;
        state.pot.main = 0;
        assert(state@.seats =~= t1.seats.update(winner as int, p@));
        assert(state@ =~= hand::awarded(t, winner as int).0);
        assert(deltas_view(deltas@) =~= hand::awarded(t, winner as int).1);
        deltas
    }

    /// Announces that a hand starts.
    pub(crate) fn announce_start<S: EventSink>(
        &self,
        hand_id: HandId,
        deck_seed: u64,
        dealer: SeatIndex,
        sink: &mut S,
    )
        ensures
            event::received(
                *old(sink),
                seq![Event::HandStarted { hand_id, dealer, deck_seed }],
                *final(sink),
            ),
    {
        let start = EngineEvent::HandStarted { hand_id, dealer, deck_seed };
        sink.on_event(&start);
        proof {
            event::received_one_more(
                *old(sink),
                Seq::<Event>::empty(),
                *old(sink),
                start@,
                *sink,
            );
            assert(Seq::<Event>::empty().push(start@) =~= seq![start@]);
        }
    }

    /// Shuffles, posts antes and blinds, deals hole cards and folds dead hands.
    /// Returns the state, the deck, and the seat that posted the big blind: the
    /// first to act is the first active seat after it, dead hands or not.
    pub(crate) fn deal_in<S: EventSink>(
        &self,
        hand_id: HandId,
        deck_seed: u64,
        stacks: &[u32],
        dealer: SeatIndex,
        seat_kinds: Option<&[SeatKind]>,
        sink: &mut S,
    ) -> (r: (GameState, Deck, SeatIndex))
        requires
            progress::setup_ok(self.setup(hand_id, deck_seed, stacks@, dealer, seat_kinds)),
        ensures
            ({
                let s = self.setup(hand_id, deck_seed, stacks@, dealer, seat_kinds);
                &&& r.0@ == hand::opening_table(s)
                &&& r.1.order() == deck::shuffled(deck_seed)
                &&& deck::full_deck(r.1.order())
                &&& r.1.dealt() == hand::dealt_in(s).1
                &&& r.2 == hand::big_blind_seat(hand::dealt_in(s).0)
                &&& r.2 < stacks@.len()
                &&& event::received(*old(sink), hand::dealt_in(s).2, *final(sink))
            }),
    {
        let ghost s = self.setup(hand_id, deck_seed, stacks@, dealer, seat_kinds);
        let mut deck = Deck::new(deck_seed);
        proof {
            progress::fresh_is_sound(s);
            progress::before_blinds_is_sound(s);
            progress::after_blinds_is_sound(s);
            progress::dealt_in_is_sound(s);
            progress::opening_table_is_sound(s);
            soundness::amounts_within_limit(hand::fresh_table(s));
            soundness::amounts_within_limit(progress::before_blinds(s));
            opening_is_roomy(hand::fresh_table(s), s);
            opening_is_roomy(progress::before_blinds(s), s);
        }
        let mut state = self.init_state(hand_id, stacks, dealer);
        assert(state@ == hand::fresh_table(s));
        let ghost s1 = *sink;
        if self.rules.ante > 0 {
            self.post_antes(&mut state, sink);
        }
        let ghost notes1 = if s.rules.ante > 0 {
            hand::with_antes(hand::fresh_table(s), s.rules.ante as int, s.stacks.len() as int).1
        } else {
            Seq::empty()
        };
        let ghost s2 = *sink;
        assert(event::received(s1, notes1, s2));
        assert(state@ == progress::before_blinds(s));
        self.post_blinds(&mut state, sink);
        let ghost notes2 = hand::with_blinds(progress::before_blinds(s), s.rules).1;
        let ghost s3 = *sink;
        assert(state@ == progress::after_blinds(s));
        self.deal_hole_cards(&mut state, &mut deck, sink);
        let ghost notes3 = hand::with_holes(
            progress::after_blinds(s),
            deck.order(),
            0,
            s.stacks.len() as int,
        ).2;
        let bb: usize = self.bb_seat(&state);
        self.fold_dead_hands(&mut state, seat_kinds);
        proof {
            event::received_in_turn(s1, notes1, s2, notes2, s3);
            event::received_in_turn(s1, notes1 + notes2, s3, notes3, *sink);
        }
        (state, deck, bb)
    }
}

// -----------------------------------------------------------------------
// Seat helpers
// -----------------------------------------------------------------------

/// Who is asked first: the first seat after `bb` that can act, unless only one seat
/// has chips.
pub(crate) fn first_to_act(stacks: &[u32], bb: SeatIndex, players: &Vec<PlayerState>) -> (seat:
    Option<SeatIndex>)
    requires
        players@.len() >= 1,
        bb + players@.len() <= usize::MAX,
    ensures
        seat_number(seat) == (if model::count(hand::funded(stacks@)) == 1 {
            None
        } else {
            hand::next_marked(model::active_marks(state::seats_of(players@)), bb as int, 1)
        }),
        seat matches Some(s) ==> s < players@.len() && players@[s as int].status
            == PlayerStatus::Active,
{
    let ghost marks = hand::funded(stacks@);
    let mut n: usize = 0;
    let mut i: usize = 0;
    while i < stacks.len()
        invariant
            i <= stacks@.len(),
            n <= i,
            marks == hand::funded(stacks@),
            n == model::count(marks.take(i as int)),
        decreases stacks@.len() - i,
    {
        assert(marks.take(i + 1).drop_last() =~= marks.take(i as int));
        if stacks[i] > 0 {
            n = n + 1;
        }
        i = i + 1;
    }
    assert(marks.take(i as int) =~= marks);
    if n == 1 {
        None
    } else {
        next_active_after(bb, players)
    }
}

/// First seat that can act strictly after `from`, wrapping around.
pub(crate) fn next_active_after(from: SeatIndex, players: &Vec<PlayerState>) -> (seat: Option<
    SeatIndex,
>)
    requires
        players@.len() >= 1,
        from + players@.len() <= usize::MAX,
    ensures
        seat_number(seat) == hand::next_marked(
            model::active_marks(state::seats_of(players@)),
            from as int,
            1,
        ),
        seat matches Some(s) ==> s < players@.len() && players@[s as int].status
            == PlayerStatus::Active,
{
    let ghost marks = model::active_marks(state::seats_of(players@));
    let n = players.len();
    let mut i: usize = 1;
    while i <= n
        invariant
            n == players@.len(),
            1 <= n,
            1 <= i <= n + 1,
            from + n <= usize::MAX,
            marks == model::active_marks(state::seats_of(players@)),
            hand::next_marked(marks, from as int, 1) == hand::next_marked(
                marks,
                from as int,
                i as int,
            ),
        decreases n + 1 - i,
    {
        let seat: usize = (from + i) % n;
        if players[seat].status == PlayerStatus::Active {
            return Some(seat);
        }
        if i == n {
            assert(hand::next_marked(marks, from as int, n + 1) is None);
            return None;
        }
        i = i + 1;
    }
    None
}

/// First seat in play strictly after `from`, wrapping around.
fn next_in_play_after(from: SeatIndex, players: &Vec<PlayerState>) -> (seat: Option<SeatIndex>)
    requires
        players@.len() >= 1,
        from + players@.len() <= usize::MAX,
    ensures
        seat_number(seat) == hand::next_marked(
            model::in_play_marks(state::seats_of(players@)),
            from as int,
            1,
        ),
        seat matches Some(s) ==> s < players@.len(),
{
    let ghost marks = model::in_play_marks(state::seats_of(players@));
    let n = players.len();
    let mut i: usize = 1;
    while i <= n
        invariant
            n == players@.len(),
            1 <= n,
            1 <= i <= n + 1,
            from + n <= usize::MAX,
            marks == model::in_play_marks(state::seats_of(players@)),
            hand::next_marked(marks, from as int, 1) == hand::next_marked(
                marks,
                from as int,
                i as int,
            ),
        decreases n + 1 - i,
    {
        let seat: usize = (from + i) % n;
        if players[seat].status == PlayerStatus::Active || players[seat].status
            == PlayerStatus::AllIn {
            return Some(seat);
        }
        if i == n {
            assert(hand::next_marked(marks, from as int, n + 1) is None);
            return None;
        }
        i = i + 1;
    }
    None
}

/// The lowest seat in play.
pub(crate) fn first_in_play(players: &Vec<PlayerState>) -> (seat: Option<SeatIndex>)
    ensures
        seat_number(seat) == hand::first_marked(
            model::in_play_marks(state::seats_of(players@)),
            0,
        ),
        seat matches Some(s) ==> s < players@.len(),
{
    let ghost marks = model::in_play_marks(state::seats_of(players@));
    let mut i: usize = 0;
    while i < players.len()
        invariant
            i <= players@.len(),
            marks == model::in_play_marks(state::seats_of(players@)),
            hand::first_marked(marks, 0) == hand::first_marked(marks, i as int),
        decreases players@.len() - i,
    {
        if players[i].status == PlayerStatus::Active || players[i].status == PlayerStatus::AllIn {
            return Some(i);
        }
        i = i + 1;
    }
    None
}

pub(crate) fn active_count(players: &Vec<PlayerState>) -> (n: usize)
    ensures
        n == model::count(model::active_marks(state::seats_of(players@))),
{
    let ghost marks = model::active_marks(state::seats_of(players@));
    let mut n: usize = 0;
    let mut i: usize = 0;
    while i < players.len()
        invariant
            i <= players@.len(),
            n <= i,
            marks == model::active_marks(state::seats_of(players@)),
            n == model::count(marks.take(i as int)),
        decreases players@.len() - i,
    {
        assert(marks.take(i + 1).drop_last() =~= marks.take(i as int));
        if players[i].status == PlayerStatus::Active {
            n = n + 1;
        }
        i = i + 1;
    }
    assert(marks.take(i as int) =~= marks);
    n
}

/// The pot with the bets of this street.
pub(crate) fn chips_in_middle(state: &GameState) -> (total: u32)
    requires
        soundness::chips_sound(state@),
        soundness::pot_sound(state@),
    ensures
        total == hand::chips_in_middle(state@),
{
    let ghost all = model::bets(state@.seats);
    proof {
        soundness::amounts_within_limit(state@);
    }
    let mut total: u32 = state.pot.total();
    let mut i: usize = 0;
    assert(all.take(0) =~= Seq::<int>::empty());
    while i < state.players.len()
        invariant
            i <= state.players@.len(),
            all == model::bets(state@.seats),
            forall|k: int| 0 <= k < all.len() ==> all[k] >= 0,
            total == hand::pot_total(state@) + model::total(all.take(i as int)),
            hand::pot_total(state@) + model::total(all) <= CHIP_LIMIT,
        decreases state.players@.len() - i,
    {
        proof {
            assert(all.take(i + 1).drop_last() =~= all.take(i as int));
            model::total_bounds(all, i + 1);
        }
        total = total + state.players[i].bet_this_street;
        i = i + 1;
    }
    assert(all.take(i as int) =~= all);
    total
}

/// `n` zeros.
fn zeros(n: usize) -> (v: Vec<i64>)
    ensures
        v@.len() == n,
        forall|i: int| 0 <= i < n ==> #[trigger] v@[i] == 0,
{
    let mut v: Vec<i64> = Vec::new();
    let mut i: usize = 0;
    while i < n
        invariant
            i <= n,
            v@.len() == i,
            forall|k: int| 0 <= k < i ==> #[trigger] v@[k] == 0,
        decreases n - i,
    {
        v.push(0);
        i = i + 1;
    }
    v
}

/// How many entries are marked.
fn count_marked(marks: &Vec<bool>) -> (n: u32)
    requires
        model::count(marks@) <= u32::MAX,
    ensures
        n == model::count(marks@),
{
    let mut n: u32 = 0;
    let mut i: usize = 0;
    while i < marks.len()
        invariant
            i <= marks@.len(),
            model::count(marks@) <= u32::MAX,
            n == model::count(marks@.take(i as int)),
        decreases marks@.len() - i,
    {
        assert(marks@.take(i + 1).drop_last() =~= marks@.take(i as int));
        proof {
            soundness::count_prefix(marks@, i + 1);
        }
        if marks[i] {
            n = n + 1;
        }
        i = i + 1;
    }
    assert(marks@.take(i as int) =~= marks@);
    n
}

/// First marked seat strictly after `from`, wrapping around.
fn next_marked_after(from: SeatIndex, marks: &Vec<bool>) -> (seat: Option<SeatIndex>)
    requires
        marks@.len() >= 1,
        from + marks@.len() <= usize::MAX,
    ensures
        seat_number(seat) == hand::next_marked(marks@, from as int, 1),
        seat matches Some(s) ==> s < marks@.len(),
{
    let n = marks.len();
    let mut i: usize = 1;
    while i <= n
        invariant
            n == marks@.len(),
            1 <= n,
            1 <= i <= n + 1,
            from + n <= usize::MAX,
            hand::next_marked(marks@, from as int, 1) == hand::next_marked(
                marks@,
                from as int,
                i as int,
            ),
        decreases n + 1 - i,
    {
        let seat: usize = (from + i) % n;
        if marks[seat] {
            return Some(seat);
        }
        if i == n {
            assert(hand::next_marked(marks@, from as int, n + 1) is None);
            return None;
        }
        i = i + 1;
    }
    None
}

/// In the opening every seat is within the limit.
proof fn opening_is_roomy(t: Table, s: Setup)
    requires
        progress::opening_sound(t, s),
    ensures
        roomy(t),
{
    soundness::amounts_within_limit(t);
    assert forall|i: int| 0 <= i < t.seats.len() implies {
        &&& (#[trigger] t.seats[i]).bet + t.seats[i].stack <= CHIP_LIMIT
        &&& t.seats[i].committed + t.seats[i].stack <= CHIP_LIMIT
    } by {
        assert(t.seats[i].bet == t.seats[i].committed);
    }
}

/// What everybody sees of the players.
pub(crate) fn public_players(state: &GameState) -> (v: Vec<PublicPlayerState>)
    ensures
        v@ == hand::public_view(state@.seats),
{
    let mut v: Vec<PublicPlayerState> = Vec::new();
    let mut i: usize = 0;
    while i < state.players.len()
        invariant
            i <= state.players@.len(),
            v@.len() == i,
            forall|k: int| 0 <= k < i ==> #[trigger] v@[k] == hand::public_view(state@.seats)[k],
        decreases state.players@.len() - i,
    {
        let p = &state.players[i];
        v.push(
            PublicPlayerState {
                seat: i,
                stack: p.stack,
                bet_this_street: p.bet_this_street,
                is_folded: p.status == PlayerStatus::Folded,
                is_all_in: p.status == PlayerStatus::AllIn,
            },
        );
        i = i + 1;
    }
    assert(v@ =~= hand::public_view(state@.seats));
    v
}

/// Notes that `seat` acted; after a full raise everybody else has to respond again.
pub(crate) fn note_response(responded: &mut Vec<bool>, seat: SeatIndex, reopened: bool)
    requires
        seat < old(responded)@.len(),
    ensures
        final(responded)@ == hand::responses(old(responded)@, seat as int, reopened),
{
    responded[seat] = true;
    if reopened {
        let mut i: usize = 0;
        while i < responded.len()
            invariant
                i <= responded@.len() == old(responded)@.len(),
                seat < responded@.len(),
                responded@[seat as int],
                forall|k: int| 0 <= k < i && k != seat ==> !(#[trigger] responded@[k]),
            decreases responded@.len() - i,
        {
            if i != seat {
                responded[i] = false;
            }
            i = i + 1;
        }
    }
    assert(responded@ =~= hand::responses(old(responded)@, seat as int, reopened));
}

/// The first seat after `from`, once around the table, that still has to act.
pub(crate) fn next_unsettled(state: &GameState, responded: &Vec<bool>, from: SeatIndex) -> (seat:
    Option<SeatIndex>)
    requires
        soundness::seating_sound(state@),
        responded@.len() == state@.seats.len(),
        from < state@.seats.len(),
    ensures
        seat_number(seat) == hand::next_marked(
            hand::unsettled_marks(state@, responded@),
            from as int,
            1,
        ),
        seat matches Some(s) ==> s < state@.seats.len(),
{
    let ghost marks = hand::unsettled_marks(state@, responded@);
    let n = state.players.len();
    let mut i: usize = 1;
    while i <= n
        invariant
            n == state.players@.len() == responded@.len(),
            1 <= n,
            1 <= i <= n + 1,
            from + n <= usize::MAX,
            marks == hand::unsettled_marks(state@, responded@),
            hand::next_marked(marks, from as int, 1) == hand::next_marked(
                marks,
                from as int,
                i as int,
            ),
        decreases n + 1 - i,
    {
        let seat: usize = (from + i) % n;
        let p = &state.players[seat];
        let settled = p.bet_this_street >= state.current_bet && responded[seat];
        if p.status == PlayerStatus::Active && !settled {
            return Some(seat);
        }
        if i == n {
            assert(hand::next_marked(marks, from as int, n + 1) is None);
            return None;
        }
        i = i + 1;
    }
    None
}

/// The outcome of a finished hand, seat by seat.
pub(crate) fn build_result(hand_id: HandId, state: &GameState, deltas: &Vec<i64>) -> (result:
    HandResult)
    requires
        deltas@.len() == state@.seats.len(),
        state@.sat_out.len() == state@.seats.len(),
        forall|i: int|
            0 <= i < deltas@.len() ==> 0 <= #[trigger] deltas@[i] <= CHIP_LIMIT
                && state@.seats[i].committed <= CHIP_LIMIT,
    ensures
        result@ == hand::outcome(hand_id, state@, deltas_view(deltas@)),
{
    let ghost marks = hand::took_part_marks(state@.seats);
    let ghost f = |i: int|
        model::SeatResult {
            seat: i,
            hole: state@.seats[i].hole,
            chip_delta: deltas_view(deltas@)[i] - state@.seats[i].committed,
            sat_out: state@.sat_out[i],
        };
    let mut seats: Vec<SeatOutcome> = Vec::new();
    let mut i: usize = 0;
    assert(event::seat_results(seats@) =~= model::marked(marks.take(0)).map_values(f));
    while i < state.players.len()
        invariant
            i <= state.players@.len() == deltas@.len(),
            state@.sat_out.len() == state@.seats.len(),
            forall|k: int|
                0 <= k < deltas@.len() ==> 0 <= #[trigger] deltas@[k] <= CHIP_LIMIT
                    && state@.seats[k].committed <= CHIP_LIMIT,
            marks == hand::took_part_marks(state@.seats),
            f == (|i: int|
                model::SeatResult {
                    seat: i,
                    hole: state@.seats[i].hole,
                    chip_delta: deltas_view(deltas@)[i] - state@.seats[i].committed,
                    sat_out: state@.sat_out[i],
                }),
            event::seat_results(seats@) == model::marked(marks.take(i as int)).map_values(f),
        decreases state.players@.len() - i,
    {
        assert(marks.take(i + 1).drop_last() =~= marks.take(i as int));
        let p = &state.players[i];
        assert(state@.seats[i as int] == p@);
        assert(0 <= deltas@[i as int] <= CHIP_LIMIT);
        if p.status != PlayerStatus::Out {
            let ghost before = seats@;
            let chip_delta: i64 = deltas[i] - p.total_committed as i64;
            let o = SeatOutcome {
                seat: i,
                hole_cards: p.hole_cards,
                chip_delta: chip_delta as i32,
                sat_out: state.sat_out[i],
            };
            seats.push(o);
            assert(o@ == f(i as int));
            assert(event::seat_results(seats@) =~= event::seat_results(before).push(o@));
            assert(event::seat_results(seats@) =~= model::marked(marks.take(i + 1)).map_values(f));
        }
        i = i + 1;
    }
    assert(marks.take(i as int) =~= marks);
    let result = HandResult { hand_id, board: state.board.to_vec(), seats };
    assert(result@ =~= hand::outcome(hand_id, state@, deltas_view(deltas@)));
    result
}

} // verus!
