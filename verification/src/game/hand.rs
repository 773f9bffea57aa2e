//! One hand as a machine: how it opens, what an action does, how it is paid out.

use vstd::prelude::*;

use crate::agent::{Call, PublicPlayerState, Sight};
use crate::cards::{Card, HandEvaluator};
use crate::game::action::{Action, LegalActions};
use crate::game::model;
use crate::game::model::{Event, Outcome, Seat, SeatResult, Table};
use crate::game::pot_calc;
use crate::game::rules::{BetVariant, BettingRules};
use crate::game::state::{PlayerStatus, SeatKind, Street};

verus! {

/// No table holds more chips than this, and no big blind is higher: so that twice
/// any bet is still a `u32`, and any gain or loss an `i32`.
pub const CHIP_LIMIT: u32 = 0x7fff_ffff;

// ---------------------------------------------------------------------------
// Small things
// ---------------------------------------------------------------------------

pub open spec fn least(a: int, b: int) -> int {
    if a < b {
        a
    } else {
        b
    }
}

/// What `a` is above `b`, if anything.
pub open spec fn excess(a: int, b: int) -> int {
    if a > b {
        a - b
    } else {
        0
    }
}

/// The first marked seat among those `i`, `i + 1`, ... places after `from`, once
/// around the table.
pub open spec fn next_marked(marks: Seq<bool>, from: int, i: int) -> Option<int>
    decreases marks.len() + 1 - i,
{
    if i > marks.len() {
        None
    } else {
        let seat = (from + i) % (marks.len() as int);
        if marks[seat] {
            Some(seat)
        } else {
            next_marked(marks, from, i + 1)
        }
    }
}

/// The lowest marked position from `i` on.
pub open spec fn first_marked(marks: Seq<bool>, i: int) -> Option<int>
    decreases marks.len() - i,
{
    if i >= marks.len() {
        None
    } else if marks[i] {
        Some(i)
    } else {
        first_marked(marks, i + 1)
    }
}

/// The table with seat `i` replaced.
pub open spec fn with_seat(t: Table, i: int, seat: Seat) -> Table {
    Table { seats: t.seats.update(i, seat), ..t }
}

/// The pot, without the bets of this street.
pub open spec fn pot_total(t: Table) -> int {
    t.main + model::side_total(t.side)
}

/// The pot with the bets of this street.
pub open spec fn chips_in_middle(t: Table) -> int {
    pot_total(t) + model::total(model::bets(t.seats))
}

/// How many seats can still win.
pub open spec fn still_in(t: Table) -> int {
    model::count(model::in_play_marks(t.seats))
}

// ---------------------------------------------------------------------------
// Opening
// ---------------------------------------------------------------------------

/// All that a hand starts from.
#[verifier::ext_equal]
pub struct Setup {
    pub rules: BettingRules,
    pub hand_id: u64,
    pub deck_seed: u64,
    pub stacks: Seq<u32>,
    pub dealer: usize,
    pub kinds: Option<Seq<SeatKind>>,
}

/// The table before anything is posted.
pub open spec fn fresh_table(s: Setup) -> Table {
    Table {
        hand_id: s.hand_id,
        street: Street::Preflop,
        board: Seq::empty(),
        seats: Seq::new(
            s.stacks.len(),
            |i: int|
                Seat {
                    stack: s.stacks[i] as int,
                    hole: None,
                    bet: 0,
                    committed: 0,
                    status: if s.stacks[i] > 0 {
                        PlayerStatus::Active
                    } else {
                        PlayerStatus::Out
                    },
                },
        ),
        main: 0,
        side: Seq::empty(),
        action_on: None,
        dealer: s.dealer,
        last_aggressor: None,
        current_bet: 0,
        increment: s.rules.big_blind as int,
        short: 0,
        sat_out: Seq::new(s.stacks.len(), |i: int| false),
    }
}

/// The seat after it put `amount` in.
pub open spec fn paying(seat: Seat, amount: int) -> Seat {
    Seat {
        stack: seat.stack - amount,
        bet: seat.bet + amount,
        committed: seat.committed + amount,
        status: if seat.stack == amount {
            PlayerStatus::AllIn
        } else {
            seat.status
        },
        ..seat
    }
}

/// The table after seat `i` posted `amount`, or all it has.
pub open spec fn posted(t: Table, i: int, amount: int) -> Table {
    with_seat(t, i, paying(t.seats[i], least(amount, t.seats[i].stack)))
}

/// The event that seat `i` is all-in, if it has nothing left.
pub open spec fn all_in_note(t: Table, i: int) -> Seq<Event> {
    if t.seats[i].stack == 0 {
        seq![Event::PlayerAllIn { seat: i, total_committed: t.seats[i].committed }]
    } else {
        Seq::empty()
    }
}

/// The first `n` seats have posted the ante, as far as they can act.
pub open spec fn with_antes(t: Table, ante: int, n: int) -> (Table, Seq<Event>)
    decreases n,
{
    if n <= 0 {
        (t, Seq::empty())
    } else {
        let (t1, notes) = with_antes(t, ante, n - 1);
        if t1.seats[n - 1].status == PlayerStatus::Active {
            let t2 = posted(t1, n - 1, ante);
            (t2, notes + all_in_note(t2, n - 1))
        } else {
            (t1, notes)
        }
    }
}

/// Only two seats are in play, and the dealer is one of them.
pub open spec fn heads_up(t: Table) -> bool {
    still_in(t) == 2 && t.dealer < t.seats.len() && model::in_play(t.seats[t.dealer as int])
}

/// The small blind: heads-up the dealer, otherwise the first seat in play after the
/// dealer, or the dealer where there is none.
pub open spec fn small_blind_seat(t: Table) -> int {
    if heads_up(t) {
        t.dealer as int
    } else {
        match next_marked(model::in_play_marks(t.seats), t.dealer as int, 1) {
            Some(seat) => seat,
            None => t.dealer as int,
        }
    }
}

/// The big blind: the first seat in play after the small blind.
pub open spec fn big_blind_seat(t: Table) -> int {
    let sb = small_blind_seat(t);
    match next_marked(model::in_play_marks(t.seats), sb, 1) {
        Some(seat) => seat,
        None => sb,
    }
}

/// Both blinds are posted and the bet to match is the big blind.
pub open spec fn with_blinds(t: Table, rules: BettingRules) -> (Table, Seq<Event>) {
    let sb = small_blind_seat(t);
    let bb = big_blind_seat(t);
    let t1 = posted(t, sb, rules.small_blind as int);
    let t2 = posted(t1, bb, rules.big_blind as int);
    (
        Table {
            current_bet: rules.big_blind as int,
            increment: rules.big_blind as int,
            ..t2
        },
        all_in_note(t1, sb) + all_in_note(t2, bb),
    )
}

/// The first `n` seats, as far as they are in play, have two cards each.
pub open spec fn with_holes(t: Table, order: Seq<Card>, dealt: int, n: int) -> (
    Table,
    int,
    Seq<Event>,
)
    decreases n,
{
    if n <= 0 {
        (t, dealt, Seq::empty())
    } else {
        let (t1, d, notes) = with_holes(t, order, dealt, n - 1);
        if model::in_play(t1.seats[n - 1]) {
            let hole = (order[d], order[d + 1]);
            (
                with_seat(t1, n - 1, Seat { hole: Some(hole), ..t1.seats[n - 1] }),
                d + 2,
                notes.push(Event::HoleCardsDealt { seat: n - 1, hole }),
            )
        } else {
            (t1, d, notes)
        }
    }
}

/// Dead hands are folded and flagged.
pub open spec fn with_dead_hands(t: Table, kinds: Option<Seq<SeatKind>>) -> Table {
    match kinds {
        None => t,
        Some(k) => Table {
            seats: Seq::new(
                t.seats.len(),
                |i: int|
                    if k[i] == SeatKind::DeadHand && t.seats[i].status != PlayerStatus::Out {
                        Seat { status: PlayerStatus::Folded, ..t.seats[i] }
                    } else {
                        t.seats[i]
                    },
            ),
            sat_out: Seq::new(
                t.sat_out.len(),
                |i: int|
                    (k[i] == SeatKind::DeadHand && t.seats[i].status != PlayerStatus::Out)
                        || t.sat_out[i],
            ),
            ..t
        },
    }
}

/// Where a hand stands.
#[verifier::ext_equal]
pub enum Phase {
    /// `seat` is to act. `responded` marks the seats that acted since the last full
    /// raise.
    Decision { seat: int, responded: Seq<bool> },
    /// The hand is over; the chips each seat was awarded.
    Terminal { deltas: Seq<int> },
}

/// A hand in progress: the table, the deck and the phase.
#[verifier::ext_equal]
pub struct Node {
    pub table: Table,
    pub order: Seq<Card>,
    pub dealt: int,
    pub phase: Phase,
}

/// A hand in progress and what has been said so far: events to the sink, calls to
/// the agents.
#[verifier::ext_equal]
pub struct Progress {
    pub node: Node,
    pub events: Seq<Event>,
    pub calls: Seq<Call>,
}

/// Antes and blinds are posted, cards are dealt.
pub open spec fn dealt_in(s: Setup) -> (Table, int, Seq<Event>) {
    let (t1, e1) = if s.rules.ante > 0 {
        with_antes(fresh_table(s), s.rules.ante as int, s.stacks.len() as int)
    } else {
        (fresh_table(s), Seq::empty())
    };
    let (t2, e2) = with_blinds(t1, s.rules);
    let (t3, dealt, e3) = with_holes(
        t2,
        crate::cards::deck::shuffled(s.deck_seed),
        0,
        s.stacks.len() as int,
    );
    (t3, dealt, e1 + e2 + e3)
}

/// The table when the first player is to act, or nobody can.
pub open spec fn opening_table(s: Setup) -> Table {
    with_dead_hands(dealt_in(s).0, s.kinds)
}

/// Which seats have chips.
pub open spec fn funded(stacks: Seq<u32>) -> Seq<bool> {
    Seq::new(stacks.len(), |i: int| stacks[i] > 0)
}

/// Who is asked first: the first player after the big blind who can act. Nobody is
/// where only one seat has chips.
pub open spec fn first_asked(s: Setup) -> Option<int> {
    if model::count(funded(s.stacks)) == 1 {
        None
    } else {
        next_marked(model::active_marks(opening_table(s).seats), big_blind_seat(dealt_in(s).0), 1)
    }
}

/// What is announced before anybody is asked: the start, the blinds, the deal.
pub open spec fn opening_events(s: Setup) -> Seq<Event> {
    seq![
        Event::HandStarted { hand_id: s.hand_id, dealer: s.dealer, deck_seed: s.deck_seed },
    ] + dealt_in(s).2
}

/// The hand up to the first decision. Where nobody is asked, the hand is over, and the
/// first seat in play takes the pot.
pub open spec fn opened(s: Setup) -> Progress {
    let dealt = dealt_in(s).1;
    let t = opening_table(s);
    let order = crate::cards::deck::shuffled(s.deck_seed);
    let (table, phase) = match first_asked(s) {
        None => won(t, first_marked(model::in_play_marks(t.seats), 0)),
        Some(first) => (
            Table { action_on: Some(first as usize), ..t },
            Phase::Decision { seat: first, responded: none_marked(t.seats.len()) },
        ),
    };
    Progress {
        node: Node { table, order, dealt, phase },
        events: opening_events(s),
        calls: Seq::empty(),
    }
}

/// `n` unmarked entries.
pub open spec fn none_marked(n: nat) -> Seq<bool> {
    Seq::new(n, |i: int| false)
}

// ---------------------------------------------------------------------------
// Betting
// ---------------------------------------------------------------------------

/// What `seat` has to add to match the current bet.
pub open spec fn owed(t: Table, seat: int) -> int {
    excess(t.current_bet, t.seats[seat].bet)
}

/// The smallest total to which a full raise goes.
pub open spec fn min_raise_total(t: Table) -> int {
    t.current_bet + t.increment
}

/// The actions that are legal for `seat`. Who has acted since the last full raise
/// may not raise again (`can_reopen` is false).
pub open spec fn legal_actions(rules: BettingRules, t: Table, seat: int, can_reopen: bool) -> LegalActions {
    let p = t.seats[seat];
    let need = owed(t, seat);
    let reach = p.stack + p.bet;
    let least_raise = min_raise_total(t);
    LegalActions {
        can_check: need == 0,
        can_call: need > 0 && p.stack > need,
        call_amount: least(need, p.stack) as u32,
        can_raise: can_reopen && match rules.variant {
            BetVariant::FixedLimit => reach >= least_raise,
            _ => reach > least_raise,
        },
        min_raise: least_raise as u32,
        max_raise: match rules.variant {
            BetVariant::NoLimit => reach as u32,
            BetVariant::PotLimit => least(reach, need + (pot_total(t) + need)) as u32,
            BetVariant::FixedLimit => least_raise as u32,
        },
        all_in_amount: p.stack as u32,
    }
}

/// What everybody sees of the seats.
pub open spec fn public_view(seats: Seq<Seat>) -> Seq<PublicPlayerState> {
    Seq::new(
        seats.len(),
        |i: int|
            PublicPlayerState {
                seat: i as usize,
                stack: seats[i].stack as u32,
                bet_this_street: seats[i].bet as u32,
                is_folded: seats[i].status == PlayerStatus::Folded,
                is_all_in: seats[i].status == PlayerStatus::AllIn,
            },
    )
}

/// What `seat` sees when it is asked: its own two cards, and nobody else's.
pub open spec fn sight(rules: BettingRules, t: Table, responded: Seq<bool>, seat: int) -> Sight {
    Sight {
        hole: t.seats[seat].hole->0,
        board: t.board,
        main: t.main,
        side: t.side,
        legal: legal_actions(rules, t, seat, !responded[seat]),
        players: public_view(t.seats),
        street: t.street,
        position: seat as usize,
        dealer: t.dealer,
    }
}

/// The action that is carried out when `seat` submits `action`: a raise that takes
/// the whole stack is an all-in; a shorter raise than allowed is a call, or a check
/// where nothing is owed.
pub open spec fn normalized(t: Table, seat: int, action: Action) -> Action {
    match action {
        Action::Raise(amount) => {
            let p = t.seats[seat];
            if excess(amount as int, p.bet) >= p.stack {
                Action::AllIn
            } else if amount < min_raise_total(t) {
                if owed(t, seat) == 0 {
                    Action::Check
                } else {
                    Action::Call
                }
            } else {
                action
            }
        },
        _ => action,
    }
}

/// The table after `seat` took `action`, whether the betting is reopened, and who is
/// all-in by it.
pub open spec fn action_effect(t: Table, seat: int, action: Action) -> (Table, bool, Seq<Event>) {
    let p = t.seats[seat];
    match action {
        Action::Fold => (
            with_seat(t, seat, Seat { status: PlayerStatus::Folded, ..p }),
            false,
            Seq::empty(),
        ),
        Action::Check => (t, false, Seq::empty()),
        Action::Call => {
            let t1 = with_seat(t, seat, paying(p, least(owed(t, seat), p.stack)));
            (t1, false, all_in_note(t1, seat))
        },
        Action::Raise(amount) => {
            let put = least(excess(amount as int, p.bet), p.stack);
            let new_total = p.bet + put;
            (
                Table {
                    increment: new_total - t.current_bet,
                    short: 0,
                    current_bet: new_total,
                    last_aggressor: Some(seat as usize),
                    ..with_seat(
                        t,
                        seat,
                        Seat {
                            stack: p.stack - put,
                            bet: p.bet + put,
                            committed: p.committed + put,
                            ..p
                        },
                    )
                },
                true,
                Seq::empty(),
            )
        },
        Action::AllIn => {
            let all = p.bet + p.stack;
            let t1 = with_seat(
                t,
                seat,
                Seat {
                    stack: 0,
                    bet: all,
                    committed: p.committed + p.stack,
                    status: PlayerStatus::AllIn,
                    ..p
                },
            );
            let note = seq![
                Event::PlayerAllIn { seat, total_committed: p.committed + p.stack },
            ];
            if all <= t.current_bet {
                (t1, false, note)
            } else {
                let more = all - t.current_bet;
                let t2 = Table {
                    current_bet: all,
                    last_aggressor: Some(seat as usize),
                    ..t1
                };
                if more >= t.increment {
                    // A full raise.
                    (Table { increment: more, short: 0, ..t2 }, true, note)
                } else {
                    // A short one. Together, short ones can make up a full raise.
                    let short = least(t.short + more, u32::MAX as int);
                    (Table { short, ..t2 }, short >= t.increment, note)
                }
            }
        },
    }
}

/// The event that tells of an action that was just carried out on `t`.
pub open spec fn action_event(t: Table, seat: int, action: Action) -> Event {
    Event::ActionTaken { seat, action, pot_total: chips_in_middle(t) }
}

/// Who has responded after `seat` acted: after a full raise, nobody else.
pub open spec fn responses(responded: Seq<bool>, seat: int, reopened: bool) -> Seq<bool> {
    Seq::new(
        responded.len(),
        |i: int|
            if i == seat {
                true
            } else if reopened {
                false
            } else {
                responded[i]
            },
    )
}

/// The seats that still have to act: who has not matched the current bet, or has not
/// been asked.
pub open spec fn unsettled_marks(t: Table, responded: Seq<bool>) -> Seq<bool> {
    Seq::new(
        t.seats.len(),
        |i: int|
            t.seats[i].status == PlayerStatus::Active && !(t.seats[i].bet >= t.current_bet
                && responded[i]),
    )
}

/// How it goes on after an action.
pub enum Next {
    /// Everybody else folded.
    Won(int),
    /// This seat is to act.
    Asks(int),
    /// The betting round is over.
    RoundOver,
}

/// How it goes on after `seat` acted.
pub open spec fn next_after(t: Table, responded: Seq<bool>, seat: int) -> Next {
    if still_in(t) == 1 {
        Next::Won(first_marked(model::in_play_marks(t.seats), 0)->0)
    } else {
        match next_marked(unsettled_marks(t, responded), seat, 1) {
            Some(s) => Next::Asks(s),
            None => Next::RoundOver,
        }
    }
}

// ---------------------------------------------------------------------------
// Streets
// ---------------------------------------------------------------------------

/// The bets of this street are in the pot.
pub open spec fn collected(t: Table) -> Table {
    Table {
        seats: model::cleared(t.seats),
        main: t.main + model::total(model::bets(t.seats)),
        ..t
    }
}

/// A new street with nothing bet.
pub open spec fn begun(rules: BettingRules, t: Table, street: Street) -> Table {
    Table {
        street,
        current_bet: 0,
        increment: rules.big_blind as int,
        short: 0,
        last_aggressor: None,
        seats: model::cleared(t.seats),
        ..t
    }
}

/// The street after `street`, and how many board cards it brings.
pub open spec fn next_street(street: Street) -> Option<(Street, int)> {
    match street {
        Street::Preflop => Some((Street::Flop, 3)),
        Street::Flop => Some((Street::Turn, 1)),
        Street::Turn => Some((Street::River, 1)),
        Street::River => None,
        Street::Showdown => None,
    }
}

/// How many streets are to come.
pub open spec fn streets_left(street: Street) -> int {
    match street {
        Street::Preflop => 3,
        Street::Flop => 2,
        Street::Turn => 1,
        Street::River => 0,
        Street::Showdown => 0,
    }
}

/// The next street is begun and its cards are on the board.
pub open spec fn street_dealt(
    rules: BettingRules,
    t: Table,
    order: Seq<Card>,
    dealt: int,
    street: Street,
    n: int,
) -> Table {
    let t1 = begun(rules, t, street);
    Table { board: t1.board + order.subrange(dealt, dealt + n), ..t1 }
}

/// The event that tells of the next `n` cards as the board cards of `street`.
pub open spec fn board_event(order: Seq<Card>, dealt: int, street: Street, n: int) -> Event {
    Event::BoardDealt { street, cards: order.subrange(dealt, dealt + n) }
}

/// The table, the number of cards dealt and the events after `street`, which brings
/// the board to `size` cards, was dealt where it was missing.
pub open spec fn street_filled(
    before: (Table, int, Seq<Event>),
    order: Seq<Card>,
    street: Street,
    n: int,
    size: int,
) -> (Table, int, Seq<Event>) {
    let (t, dealt, notes) = before;
    if t.board.len() < size {
        let k = least(n, 5 - t.board.len());
        (
            Table { board: t.board + order.subrange(dealt, dealt + k), ..t },
            dealt + k,
            notes.push(board_event(order, dealt, street, k)),
        )
    } else {
        before
    }
}

/// The board is run out: what is missing of flop, turn and river is dealt.
pub open spec fn run_out(t: Table, order: Seq<Card>, dealt: int) -> (Table, int, Seq<Event>) {
    let flop = street_filled((t, dealt, Seq::empty()), order, Street::Flop, 3, 3);
    let turn = street_filled(flop, order, Street::Turn, 1, 4);
    street_filled(turn, order, Street::River, 1, 5)
}

/// What the agents are told of a new street: the board event, while at least two
/// of them are still in.
pub open spec fn board_calls(t: Table, event: Event) -> Seq<Call> {
    if still_in(t) >= 2 {
        seq![Call::Tell { event }]
    } else {
        Seq::empty()
    }
}

/// From a finished betting round, whose bets are collected, to the next decision or
/// to the showdown.
pub open spec fn streets<E: HandEvaluator>(
    rules: BettingRules,
    e: E,
    t: Table,
    order: Seq<Card>,
    dealt: int,
) -> Progress
    decreases streets_left(t.street),
{
    match next_street(t.street) {
        None => Progress {
            node: Node {
                table: paid_table(Table { street: Street::Showdown, ..t }, showdown(e, t)),
                order,
                dealt,
                phase: Phase::Terminal { deltas: showdown(e, t) },
            },
            events: Seq::empty(),
            calls: Seq::empty(),
        },
        Some((street, n)) => {
            let event = board_event(order, dealt, street, n);
            let t1 = street_dealt(rules, t, order, dealt, street, n);
            let first = next_marked(model::active_marks(t1.seats), t1.dealer as int, 1);
            if model::count(model::active_marks(t1.seats)) >= 2 && first is Some {
                Progress {
                    node: Node {
                        table: Table { action_on: Some(first->0 as usize), ..t1 },
                        order,
                        dealt: dealt + n,
                        phase: Phase::Decision {
                            seat: first->0,
                            responded: none_marked(t1.seats.len()),
                        },
                    },
                    events: seq![event],
                    calls: board_calls(t, event),
                }
            } else {
                let later = streets(rules, e, collected(t1), order, dealt + n);
                Progress {
                    events: seq![event] + later.events,
                    calls: board_calls(t, event) + later.calls,
                    ..later
                }
            }
        },
    }
}

// ---------------------------------------------------------------------------
// Payout
// ---------------------------------------------------------------------------

/// Everything in the middle goes to `winner`.
pub open spec fn awarded(t: Table, winner: int) -> (Table, Seq<int>) {
    let t1 = collected(t);
    let prize = pot_total(t1);
    let p = t1.seats[winner];
    (
        Table { main: 0, ..with_seat(t1, winner, Seat { stack: p.stack + prize, ..p }) },
        Seq::new(
            t.seats.len(),
            |i: int|
                if i == winner {
                    prize
                } else {
                    0
                },
        ),
    )
}

/// The hand is over and `winner` has taken it.
pub open spec fn won(t: Table, winner: Option<int>) -> (Table, Phase) {
    let (t1, deltas) = awarded(t, winner->0);
    (Table { action_on: None, ..t1 }, Phase::Terminal { deltas })
}

/// The seven cards of `seat`: its own two, then the board.
pub open spec fn seven(t: Table, seat: int) -> Seq<Card> {
    seq![(t.seats[seat].hole->0).0, (t.seats[seat].hole->0).1] + t.board
}

/// How strong the hand of `seat` is.
pub open spec fn strength<E: HandEvaluator>(e: E, t: Table, seat: int) -> int {
    e.strength(seven(t, seat)) as int
}

/// The strongest hand among `eligible`.
pub open spec fn best_strength<E: HandEvaluator>(e: E, t: Table, eligible: Seq<usize>) -> int
    decreases eligible.len(),
{
    if eligible.len() == 0 {
        -1
    } else {
        let head = best_strength(e, t, eligible.drop_last());
        let last = strength(e, t, eligible.last() as int);
        if last > head {
            last
        } else {
            head
        }
    }
}

/// Marks the seats among `eligible` whose hand no other beats.
pub open spec fn winner_marks<E: HandEvaluator>(e: E, t: Table, eligible: Seq<usize>) -> Seq<bool> {
    Seq::new(
        t.seats.len(),
        |i: int|
            eligible.contains(i as usize) && strength(e, t, i) == best_strength(e, t, eligible),
    )
}

/// What seat `i` gets of a pot that is split evenly among the marked seats: its
/// share, and the odd chips too if it is the first winner left of the dealer.
pub open spec fn split_share(amount: int, winners: Seq<bool>, dealer: int, i: int) -> int {
    let k = model::count(winners);
    (if winners[i] {
        amount / k
    } else {
        0
    }) + (if next_marked(winners, dealer, 1) == Some(i) {
        amount % k
    } else {
        0
    })
}

/// The awards after `pot` is given to its winners.
pub open spec fn with_pot_paid<E: HandEvaluator>(
    e: E,
    t: Table,
    deltas: Seq<int>,
    pot: (u32, Seq<usize>),
) -> Seq<int> {
    if pot.1.len() == 0 {
        deltas
    } else if pot.1.len() == 1 {
        deltas.update(pot.1[0] as int, deltas[pot.1[0] as int] + pot.0)
    } else {
        Seq::new(
            deltas.len(),
            |i: int|
                deltas[i] + split_share(
                    pot.0 as int,
                    winner_marks(e, t, pot.1),
                    t.dealer as int,
                    i,
                ),
        )
    }
}

/// The awards after the first `n` pots are given out.
pub open spec fn with_pots_paid<E: HandEvaluator>(
    e: E,
    t: Table,
    pots: Seq<(u32, Seq<usize>)>,
    n: int,
) -> Seq<int>
    decreases n,
{
    if n <= 0 {
        Seq::new(t.seats.len(), |i: int| 0)
    } else {
        with_pot_paid(e, t, with_pots_paid(e, t, pots, n - 1), pots[n - 1])
    }
}

/// What each seat is awarded at showdown.
pub open spec fn showdown<E: HandEvaluator>(e: E, t: Table) -> Seq<int> {
    let pots = pot_calc::showdown_pots(t.seats);
    with_pots_paid(e, t, pots, pots.len() as int)
}

/// The table with the awards added to the stacks.
pub open spec fn paid_table(t: Table, deltas: Seq<int>) -> Table {
    Table {
        seats: Seq::new(
            t.seats.len(),
            |i: int| Seat { stack: t.seats[i].stack + deltas[i], ..t.seats[i] },
        ),
        ..t
    }
}

// ---------------------------------------------------------------------------
// The machine
// ---------------------------------------------------------------------------

/// From just after an action, with the table as the action left it, to the next
/// decision or the end. Events and calls are those of this stretch alone.
pub open spec fn advanced<E: HandEvaluator>(rules: BettingRules, e: E, node: Node) -> Progress {
    let seat = node.phase->seat;
    let responded = node.phase->responded;
    match next_after(node.table, responded, seat) {
        Next::Won(winner) => {
            let (table, phase) = won(node.table, Some(winner));
            Progress {
                node: Node { table, phase, ..node },
                events: Seq::empty(),
                calls: Seq::empty(),
            }
        },
        Next::Asks(s) => Progress {
            node: Node {
                table: Table { action_on: Some(s as usize), ..node.table },
                phase: Phase::Decision { seat: s, responded },
                ..node
            },
            events: Seq::empty(),
            calls: Seq::empty(),
        },
        Next::RoundOver => streets(
            rules,
            e,
            Table { action_on: None, ..collected(node.table) },
            node.order,
            node.dealt,
        ),
    }
}

/// The node just after the player to act submitted `raw`, before anything else.
pub open spec fn acted(node: Node, raw: Action) -> Node {
    let seat = node.phase->seat;
    let action = normalized(node.table, seat, raw);
    let (t, reopened, notes) = action_effect(node.table, seat, action);
    Node {
        table: t,
        phase: Phase::Decision {
            seat,
            responded: responses(node.phase->responded, seat, reopened),
        },
        ..node
    }
}

/// The event that tells what came of `raw`.
pub open spec fn acted_event(node: Node, raw: Action) -> Event {
    let seat = node.phase->seat;
    action_event(acted(node, raw).table, seat, normalized(node.table, seat, raw))
}

/// All events that `raw` gives rise to, before anything else happens.
pub open spec fn acted_events(node: Node, raw: Action) -> Seq<Event> {
    let seat = node.phase->seat;
    action_effect(node.table, seat, normalized(node.table, seat, raw)).2.push(
        acted_event(node, raw),
    )
}

/// The calls that `raw` comes with: the question, and the news for all agents.
pub open spec fn acted_calls(rules: BettingRules, node: Node, raw: Action) -> Seq<Call> {
    let seat = node.phase->seat;
    seq![
        Call::Ask {
            seat,
            sight: sight(rules, node.table, node.phase->responded, seat),
            action: raw,
        },
        Call::Tell { event: acted_event(node, raw) },
    ]
}

/// What one answer of the player to act leads to: the next decision, or the end.
/// Events and calls are those of this step alone.
pub open spec fn stepped<E: HandEvaluator>(
    rules: BettingRules,
    e: E,
    node: Node,
    raw: Action,
) -> Progress {
    let after = advanced(rules, e, acted(node, raw));
    Progress {
        node: after.node,
        events: acted_events(node, raw) + after.events,
        calls: acted_calls(rules, node, raw) + after.calls,
    }
}

/// The hand after the given answers.
pub open spec fn played<E: HandEvaluator>(s: Setup, e: E, answers: Seq<Action>) -> Progress
    decreases answers.len(),
{
    if answers.len() == 0 {
        opened(s)
    } else {
        let before = played(s, e, answers.drop_last());
        let step = stepped(s.rules, e, before.node, answers.last());
        Progress {
            node: step.node,
            events: before.events + step.events,
            calls: before.calls + step.calls,
        }
    }
}

/// Each of the answers was given at a decision.
pub open spec fn answers_fit<E: HandEvaluator>(s: Setup, e: E, answers: Seq<Action>) -> bool {
    forall|k: int|
        0 <= k < answers.len() ==> (#[trigger] played(
            s,
            e,
            answers.take(k),
        )).node.phase is Decision
}

/// The outcome of a finished hand: for each seat that took part, its cards and its
/// net gain.
pub open spec fn outcome(hand_id: u64, t: Table, deltas: Seq<int>) -> Outcome {
    Outcome {
        hand_id,
        board: t.board,
        seats: model::marked(took_part_marks(t.seats)).map_values(
            |i: int|
                SeatResult {
                    seat: i,
                    hole: t.seats[i].hole,
                    chip_delta: deltas[i] - t.seats[i].committed,
                    sat_out: t.sat_out[i],
                },
        ),
    }
}

/// Marks the seats that took part in the hand.
pub open spec fn took_part_marks(seats: Seq<Seat>) -> Seq<bool> {
    Seq::new(seats.len(), |i: int| seats[i].status != PlayerStatus::Out)
}

} // verus!
