//! How a hand is played: who is asked, what the answers do, and what a new street
//! brings.

use vstd::prelude::*;

use crate::cards::{Card, HandEvaluator};
use crate::game::action::Action;
use crate::game::hand;
use crate::game::hand::{Node, Phase, CHIP_LIMIT};
use crate::game::model;
use crate::game::model::{Seat, Table};
use crate::game::pot_calc;
use crate::game::progress;
use crate::game::rules::{BetVariant, BettingRules};
use crate::game::soundness;
use crate::game::state::{PlayerStatus, Street};

verus! {

// ---------------------------------------------------------------------------
// Around the table
// ---------------------------------------------------------------------------

/// The seat `k` places after `from` is marked, and the seats between them are not.
pub open spec fn nearest(marks: Seq<bool>, from: int, k: int) -> bool {
    &&& 1 <= k <= marks.len()
    &&& marks[(from + k) % (marks.len() as int)]
    &&& forall|j: int| 1 <= j < k ==> !(#[trigger] marks[(from + j) % (marks.len() as int)])
}

proof fn search_stops_at(marks: Seq<bool>, from: int, i: int, k: int)
    requires
        1 <= i <= k <= marks.len(),
        marks[(from + k) % (marks.len() as int)],
        forall|j: int| i <= j < k ==> !(#[trigger] marks[(from + j) % (marks.len() as int)]),
    ensures
        hand::next_marked(marks, from, i) == Some((from + k) % (marks.len() as int)),
    decreases k - i,
{
    if i < k {
        assert(!marks[(from + i) % (marks.len() as int)]);
        search_stops_at(marks, from, i + 1, k);
    }
}

/// A search around the table goes up from seat to seat and stops at the nearest marked
/// one; it finds nothing where nothing is marked.
pub proof fn search_finds_the_nearest(marks: Seq<bool>, from: int)
    requires
        0 <= from,
        1 <= marks.len(),
    ensures
        forall|k: int| #[trigger]
            nearest(marks, from, k) ==> hand::next_marked(marks, from, 1) == Some(
                (from + k) % (marks.len() as int),
            ),
        (forall|i: int| 0 <= i < marks.len() ==> !marks[i]) <==> hand::next_marked(marks, from, 1)
            is None,
{
    assert forall|k: int| #[trigger] nearest(marks, from, k) implies hand::next_marked(
        marks,
        from,
        1,
    ) == Some((from + k) % (marks.len() as int)) by {
        search_stops_at(marks, from, 1, k);
    }
    soundness::next_marked_finds(marks, from);
}

/// The lowest marked seat is the first one.
pub proof fn lowest_comes_first(marks: Seq<bool>, from: int, i: int)
    requires
        0 <= from <= i < marks.len(),
        marks[i],
        forall|j: int| from <= j < i ==> !(#[trigger] marks[j]),
    ensures
        hand::first_marked(marks, from) == Some(i),
    decreases i - from,
{
    if from < i {
        assert(!marks[from]);
        lowest_comes_first(marks, from + 1, i);
    }
}

// ---------------------------------------------------------------------------
// New streets
// ---------------------------------------------------------------------------

/// Marks the players who have chips and a hand.
pub open spec fn who_can_act(t: Table) -> Seq<bool> {
    Seq::new(t.seats.len(), |i: int| t.seats[i].status == PlayerStatus::Active)
}

/// A decision that opens a street: nothing is bet, nobody has acted, the least bet is the
/// big blind, and the first to act is the nearest player left of the dealer who can.
pub open spec fn opens_street(rules: BettingRules, node: Node) -> bool {
    let t = node.table;
    let seat = node.phase->seat;
    let legal = hand::sight(rules, t, node.phase->responded, seat).legal;
    &&& node.phase is Decision
    &&& 0 <= seat < t.seats.len()
    &&& node.phase->responded == Seq::new(t.seats.len(), |i: int| false)
    &&& forall|i: int| 0 <= i < t.seats.len() ==> (#[trigger] t.seats[i]).bet == 0
    &&& t.current_bet == 0
    &&& t.last_aggressor is None
    &&& legal.can_check && !legal.can_call && legal.call_amount == 0
    &&& legal.min_raise == rules.big_blind
    &&& legal.all_in_amount == t.seats[seat].stack
    &&& rules.variant == BetVariant::NoLimit ==> {
        &&& legal.can_raise <==> t.seats[seat].stack > rules.big_blind
        &&& legal.max_raise == t.seats[seat].stack
    }
    &&& forall|amount: u32|
        rules.big_blind <= amount < t.seats[seat].stack ==> #[trigger] hand::normalized(
            t,
            seat,
            Action::Raise(amount),
        ) == Action::Raise(amount)
    &&& forall|amount: u32|
        amount < rules.big_blind && amount < t.seats[seat].stack ==> #[trigger] hand::normalized(
            t,
            seat,
            Action::Raise(amount),
        ) == Action::Check
    &&& t.seats[seat].status == PlayerStatus::Active
    &&& forall|k: int| #[trigger]
        nearest(who_can_act(t), t.dealer as int, k) ==> seat == (t.dealer + k) % (t.seats.len() as int)
    &&& exists|i: int|
        0 <= i < t.seats.len() && i != seat && (#[trigger] t.seats[i]).status
            == PlayerStatus::Active
}

/// Two or more marked entries: there is another one beside `seat`.
proof fn somebody_else(marks: Seq<bool>, seat: int)
    requires
        0 <= seat < marks.len(),
        model::count(marks) >= 2,
    ensures
        exists|i: int| 0 <= i < marks.len() && i != seat && #[trigger] marks[i],
{
    model::count_update(marks, seat, false);
    let others = marks.update(seat, false);
    soundness::none_marked_counts_zero(others);
    let i = choose|i: int| 0 <= i < others.len() && others[i];
    assert(marks[i] && i != seat);
}

/// How many cards the board has when betting is open on `street`.
pub open spec fn cards_on(street: Street) -> int {
    match street {
        Street::Preflop => 0,
        Street::Flop => 3,
        Street::Turn => 4,
        _ => 5,
    }
}

/// What the streets after a finished round bring: chips and hands stay as they are, the
/// board goes on with the next cards of the deck, and where betting is open again, it
/// starts over.
proof fn streets_start_over<E: HandEvaluator>(
    rules: BettingRules,
    e: E,
    t: Table,
    order: Seq<Card>,
    dealt: int,
)
    requires
        progress::between_rounds(t, order, dealt),
        t.street != Street::Showdown,
        rules.big_blind <= CHIP_LIMIT,
    ensures
        ({
            let q = hand::streets(rules, e, t, order, dealt).node;
            &&& q.table.seats.len() == t.seats.len()
            &&& q.table.board == t.board + order.subrange(
                dealt,
                dealt + q.table.board.len() - t.board.len(),
            )
            &&& t.board.len() <= q.table.board.len() <= 5
            &&& q.dealt == dealt + q.table.board.len() - t.board.len()
            &&& q.dealt <= order.len()
            &&& q.table.dealer == t.dealer
            &&& forall|i: int|
                0 <= i < t.seats.len() ==> {
                    &&& (#[trigger] q.table.seats[i]).committed == t.seats[i].committed
                    &&& q.table.seats[i].status == t.seats[i].status
                    &&& q.table.seats[i].hole == t.seats[i].hole
                }
            &&& q.phase is Decision ==> {
                &&& opens_street(rules, q)
                &&& q.table.street != t.street
                &&& q.table.board.len() == cards_on(q.table.street)
                &&& q.table.board.len() > t.board.len()
                &&& forall|i: int|
                    0 <= i < t.seats.len() ==> (#[trigger] q.table.seats[i]).stack
                        == t.seats[i].stack
            }
            &&& q.phase is Terminal ==> q.table.board.len() == 5
        }),
    decreases hand::streets_left(t.street),
{
    match hand::next_street(t.street) {
        None => {
            assert(order.subrange(dealt, dealt) =~= Seq::<Card>::empty());
            assert(t.board =~= t.board + order.subrange(dealt, dealt));
        },
        Some((street, n)) => {
            progress::street_is_sound(rules, t, order, dealt, street, n);
            let t1 = hand::street_dealt(rules, t, order, dealt, street, n);
            let marks = model::active_marks(t1.seats);
            let from = t1.dealer as int;
            assert(marks =~= who_can_act(t1));
            search_finds_the_nearest(marks, from);
            soundness::next_marked_is_marked(marks, from, 1);
            let first = hand::next_marked(marks, from, 1);
            if model::count(marks) >= 2 && first is Some {
                let q = hand::streets(rules, e, t, order, dealt).node;
                somebody_else(marks, first->0);
                let i = choose|i: int| 0 <= i < marks.len() && i != first->0 && #[trigger] marks[i];
                assert(q.table.seats[i].status == PlayerStatus::Active);
                assert(who_can_act(q.table) =~= marks);
                soundness::amounts_within_limit(t1);
                assert(soundness::seat_sound(t1.seats[first->0]));
                assert(q.phase->responded =~= Seq::new(q.table.seats.len(), |i: int| false));
                assert(opens_street(rules, q));
            } else {
                progress::nothing_to_collect(t1);
                let c = hand::collected(t1);
                streets_start_over(rules, e, c, order, dealt + n);
                let q = hand::streets(rules, e, t, order, dealt).node;
                let m = q.table.board.len() - c.board.len();
                assert(t.board + order.subrange(dealt, dealt + n) + order.subrange(
                    dealt + n,
                    dealt + n + m,
                ) =~= t.board + order.subrange(dealt, dealt + n + m));
                assert forall|i: int| 0 <= i < t.seats.len() implies {
                    &&& (#[trigger] q.table.seats[i]).committed == t.seats[i].committed
                    &&& q.table.seats[i].status == t.seats[i].status
                    &&& q.table.seats[i].hole == t.seats[i].hole
                } by {
                    assert(c.seats[i].committed == t.seats[i].committed);
                }
            }
        },
    }
}

/// Where an answer ends a betting round and the hand goes on, the betting starts over on
/// the new street, whatever was bet and raised on earlier ones: the least bet is exactly
/// the big blind, a bet from there up to less than the stack stands as submitted, and a
/// smaller one is a check. The first player left of the dealer who can act is asked first.
/// Nobody's chips move, and the board grows by the next cards of the deck.
pub proof fn new_streets_start_over<E: HandEvaluator>(
    rules: BettingRules,
    e: E,
    node: Node,
    raw: Action,
)
    requires
        soundness::node_sound(node),
        node.phase is Decision,
        rules.big_blind <= CHIP_LIMIT,
        hand::stepped(rules, e, node, raw).node.phase is Decision,
        hand::stepped(rules, e, node, raw).node.table.street != node.table.street,
    ensures
        ({
            let u = hand::acted(node, raw).table;
            let q = hand::stepped(rules, e, node, raw).node;
            &&& opens_street(rules, q)
            &&& q.table.board.len() == cards_on(q.table.street) > node.table.board.len()
            &&& q.table.board == node.table.board + node.order.subrange(node.dealt, q.dealt)
            &&& q.table.seats.len() == u.seats.len()
            &&& forall|i: int|
                0 <= i < u.seats.len() ==> {
                    &&& (#[trigger] q.table.seats[i]).stack == u.seats[i].stack
                    &&& q.table.seats[i].committed == u.seats[i].committed
                    &&& q.table.seats[i].status == u.seats[i].status
                }
        }),
{
    progress::acting_is_sound(node, raw);
    let m = hand::acted(node, raw);
    let seat = node.phase->seat;
    soundness::normalized_is_proper(node.table, seat, raw);
    soundness::action_keeps_table(node.table, seat, hand::normalized(node.table, seat, raw));
    progress::collected_is_between_rounds(m.table, m.order, m.dealt);
    let c = Table { action_on: None, ..hand::collected(m.table) };
    progress::same_but_for_action_on(hand::collected(m.table), c, m.order, m.dealt);
    let q = hand::stepped(rules, e, node, raw).node;
    streets_start_over(rules, e, c, m.order, m.dealt);
    assert forall|i: int| 0 <= i < m.table.seats.len() implies {
        &&& (#[trigger] q.table.seats[i]).stack == m.table.seats[i].stack
        &&& q.table.seats[i].committed == m.table.seats[i].committed
        &&& q.table.seats[i].status == m.table.seats[i].status
    } by {
        assert(c.seats[i].stack == m.table.seats[i].stack);
    }
}

// ---------------------------------------------------------------------------
// Answers
// ---------------------------------------------------------------------------

/// What an answer does, whatever it is: it moves chips only from the stack of who answers
/// to its bet, and leaves everybody else, the pot and the cards alone. Who has nothing
/// left is all-in. Who answered has responded.
pub proof fn answers_move_own_chips(node: Node, raw: Action)
    requires
        soundness::node_sound(node),
        node.phase is Decision,
    ensures
        ({
            let seat = node.phase->seat;
            let (t, u) = (node.table, hand::acted(node, raw).table);
            let (p, q) = (t.seats[seat], u.seats[seat]);
            let responded = hand::acted(node, raw).phase->responded;
            &&& hand::acted(node, raw).phase is Decision
            &&& hand::acted(node, raw).phase->seat == seat
            &&& u.seats.len() == t.seats.len()
            &&& forall|i: int|
                0 <= i < t.seats.len() && i != seat ==> #[trigger] u.seats[i] == t.seats[i]
            &&& u.board == t.board && u.street == t.street && u.dealer == t.dealer
            &&& u.main == t.main && u.side == t.side && u.sat_out == t.sat_out
            &&& q.hole == p.hole
            &&& 0 <= q.stack <= p.stack
            &&& q.bet - p.bet == p.stack - q.stack
            &&& q.committed - p.committed == p.stack - q.stack
            &&& q.status == PlayerStatus::AllIn <==> q.stack == 0
            &&& q.status == PlayerStatus::Folded <==> raw == Action::Fold
            &&& responded.len() == t.seats.len() && responded[seat]
            &&& u.current_bet >= t.current_bet
        }),
{
    let seat = node.phase->seat;
    let action = hand::normalized(node.table, seat, raw);
    soundness::amounts_within_limit(node.table);
    assert(soundness::seat_sound(node.table.seats[seat]));
    soundness::normalized_is_proper(node.table, seat, raw);
    soundness::action_keeps_table(node.table, seat, action);
}

/// What each kind of answer does. A fold puts nothing in, a check changes nothing at the
/// table, a call matches the bet as far as the stack goes, an all-in puts everything in.
/// None of these asks the others again, but for an all-in that raises in full, or makes up
/// a full raise with the short ones before it.
pub proof fn answers_do_what_they_say(node: Node)
    requires
        soundness::node_sound(node),
        node.phase is Decision,
    ensures
        ({
            let seat = node.phase->seat;
            let t = node.table;
            let p = t.seats[seat];
            let fold = hand::acted(node, Action::Fold);
            let check = hand::acted(node, Action::Check);
            let call = hand::acted(node, Action::Call);
            let all_in = hand::acted(node, Action::AllIn);
            &&& fold.table.seats[seat].stack == p.stack
            &&& fold.table.current_bet == t.current_bet
            &&& fold.table.increment == t.increment
            &&& fold.table.last_aggressor == t.last_aggressor
            &&& check.table == t
            &&& p.bet + p.stack <= t.current_bet ==> call.table.seats[seat].stack == 0
            &&& p.bet <= t.current_bet <= p.bet + p.stack ==> call.table.seats[seat].bet
                == t.current_bet
            &&& p.bet > t.current_bet ==> call.table.seats[seat].bet == p.bet
            &&& call.table.current_bet == t.current_bet
            &&& call.table.increment == t.increment
            &&& call.table.last_aggressor == t.last_aggressor
            &&& all_in.table.seats[seat].stack == 0
            &&& all_in.table.seats[seat].bet == p.bet + p.stack
            &&& fold.table.short == t.short && call.table.short == t.short
            &&& p.bet + p.stack <= t.current_bet ==> {
                &&& all_in.table.current_bet == t.current_bet
                &&& all_in.table.last_aggressor == t.last_aggressor
                &&& all_in.table.increment == t.increment
                &&& all_in.table.short == t.short
            }
            &&& p.bet + p.stack > t.current_bet ==> {
                let more = p.bet + p.stack - t.current_bet;
                &&& all_in.table.current_bet == p.bet + p.stack
                &&& all_in.table.last_aggressor == Some(seat as usize)
                &&& more >= t.increment ==> all_in.table.increment == more && all_in.table.short
                    == 0
                &&& more < t.increment ==> all_in.table.increment == t.increment
                &&& more < t.increment && t.short + more <= u32::MAX ==> all_in.table.short
                    == t.short + more
            }
            &&& forall|i: int|
                0 <= i < t.seats.len() && i != seat ==> {
                    &&& (#[trigger] fold.phase->responded[i]) == node.phase->responded[i]
                    &&& check.phase->responded[i] == node.phase->responded[i]
                    &&& call.phase->responded[i] == node.phase->responded[i]
                    &&& p.bet + p.stack <= t.current_bet ==> all_in.phase->responded[i]
                        == node.phase->responded[i]
                    &&& p.bet + p.stack >= t.current_bet + t.increment && p.bet + p.stack
                        > t.current_bet ==> !all_in.phase->responded[i]
                    &&& t.current_bet < p.bet + p.stack < t.current_bet + t.increment && t.short
                        + (p.bet + p.stack - t.current_bet) <= u32::MAX
                        ==> all_in.phase->responded[i] == (node.phase->responded[i] && t.short + (
                    p.bet + p.stack - t.current_bet) < t.increment)
                }
        }),
{
    soundness::amounts_within_limit(node.table);
    assert(soundness::seat_sound(node.table.seats[node.phase->seat]));
}

/// What a raise to `amount` does. One that takes all that the player has is an all-in. One
/// that falls short of the bet and the last full raise on top of it is a check where
/// nothing is owed, and else a call. Any other stands: the player's bet and the bet to
/// match are now `amount`, the next raise is at least as much again, and everybody else is
/// asked again.
pub proof fn raises_do_what_they_say(node: Node, amount: u32)
    requires
        soundness::node_sound(node),
        node.phase is Decision,
    ensures
        ({
            let seat = node.phase->seat;
            let t = node.table;
            let p = t.seats[seat];
            let m = hand::acted(node, Action::Raise(amount));
            let everything = p.bet + p.stack;
            let least = t.current_bet + t.increment;
            if amount >= everything {
                m == hand::acted(node, Action::AllIn)
            } else if amount < least {
                if p.bet >= t.current_bet {
                    m == hand::acted(node, Action::Check)
                } else {
                    m == hand::acted(node, Action::Call)
                }
            } else {
                &&& m.table.current_bet == if amount > p.bet {
                    amount as int
                } else {
                    p.bet
                }
                &&& m.table.seats[seat].bet == m.table.current_bet
                &&& m.table.increment == m.table.current_bet - t.current_bet
                &&& m.table.short == 0
                &&& m.table.last_aggressor == Some(seat as usize)
                &&& forall|i: int|
                    0 <= i < t.seats.len() && i != seat ==> !(#[trigger] m.phase->responded[i])
            }
        }),
{
    soundness::amounts_within_limit(node.table);
    assert(soundness::seat_sound(node.table.seats[node.phase->seat]));
}

/// What is offered to the player to act. A check is free exactly if the bet is matched. A
/// call is offered where that leaves chips. Who has acted since the last full raise may
/// not raise. At no limit a raise goes up to everything the player has; at pot limit at
/// most to the call and then as much as the pot with the call in it; at a fixed limit it
/// has one size.
pub proof fn offers_fit_the_table(rules: BettingRules, node: Node)
    requires
        soundness::node_sound(node),
        node.phase is Decision,
    ensures
        ({
            let seat = node.phase->seat;
            let t = node.table;
            let p = t.seats[seat];
            let legal = hand::sight(rules, t, node.phase->responded, seat).legal;
            let owed = if t.current_bet > p.bet {
                t.current_bet - p.bet
            } else {
                0
            };
            let least = t.current_bet + t.increment;
            let everything = p.bet + p.stack;
            &&& legal.can_check <==> p.bet >= t.current_bet
            &&& legal.can_call <==> 0 < owed < p.stack
            &&& legal.call_amount <= owed && legal.call_amount <= p.stack
            &&& legal.call_amount == owed || legal.call_amount == p.stack
            &&& legal.all_in_amount == p.stack
            &&& legal.min_raise == least
            &&& legal.can_raise ==> !node.phase->responded[seat] && everything >= least
            &&& !node.phase->responded[seat] && everything > least ==> legal.can_raise
            &&& rules.variant != BetVariant::FixedLimit && everything == least
                ==> !legal.can_raise
            &&& rules.variant == BetVariant::FixedLimit && everything == least
                && !node.phase->responded[seat] ==> legal.can_raise
            &&& rules.variant == BetVariant::NoLimit ==> legal.max_raise == everything
            &&& rules.variant == BetVariant::PotLimit ==> legal.max_raise <= everything
                && legal.max_raise <= owed + (hand::pot_total(t) + owed) && (legal.max_raise
                == everything || legal.max_raise == owed + (hand::pot_total(t) + owed))
            &&& rules.variant == BetVariant::FixedLimit ==> legal.max_raise == least
        }),
{
    soundness::amounts_within_limit(node.table);
    assert(soundness::seat_sound(node.table.seats[node.phase->seat]));
    soundness::stack_fits_with_pot(node.table, node.phase->seat);
}

// ---------------------------------------------------------------------------
// Whose turn it is
// ---------------------------------------------------------------------------

/// Marks who still has to act: players who can act and have not matched the bet, or have
/// not been asked since the last full raise.
pub open spec fn who_must_act(t: Table, responded: Seq<bool>) -> Seq<bool> {
    Seq::new(
        t.seats.len(),
        |i: int|
            t.seats[i].status == PlayerStatus::Active && (t.seats[i].bet < t.current_bet
                || !responded[i]),
    )
}

/// How it goes on after an answer. While two or more are in and somebody still has to act,
/// the nearest of those up around the table is asked, on the same street. When nobody has
/// to, the round is over: the hand goes on on another street, or it has ended.
pub proof fn turns_go_round<E: HandEvaluator>(
    rules: BettingRules,
    e: E,
    node: Node,
    raw: Action,
    k: int,
)
    requires
        soundness::node_sound(node),
        node.phase is Decision,
        rules.big_blind <= CHIP_LIMIT,
        exists|i: int, j: int|
            0 <= i < j < node.table.seats.len() && model::in_play(
                #[trigger] hand::acted(node, raw).table.seats[i],
            ) && model::in_play(#[trigger] hand::acted(node, raw).table.seats[j]),
    ensures
        ({
            let m = hand::acted(node, raw);
            let q = hand::stepped(rules, e, node, raw).node;
            let must = who_must_act(m.table, m.phase->responded);
            &&& nearest(must, node.phase->seat, k) ==> {
                &&& q.phase == (Phase::Decision {
                    seat: (node.phase->seat + k) % (must.len() as int),
                    responded: m.phase->responded,
                })
                &&& q.table.street == node.table.street
                &&& q.table.seats == m.table.seats
                &&& q.table.current_bet == m.table.current_bet
                &&& q.table.increment == m.table.increment
            }
            &&& (forall|i: int| 0 <= i < must.len() ==> !must[i]) ==> q.phase is Terminal
                || q.table.street != node.table.street
        }),
{
    progress::acting_is_sound(node, raw);
    let m = hand::acted(node, raw);
    let seat = node.phase->seat;
    soundness::normalized_is_proper(node.table, seat, raw);
    soundness::action_keeps_table(node.table, seat, hand::normalized(node.table, seat, raw));
    let must = who_must_act(m.table, m.phase->responded);
    assert(must =~= hand::unsettled_marks(m.table, m.phase->responded));
    let (i, j) = choose|i: int, j: int|
        0 <= i < j < node.table.seats.len() && model::in_play(#[trigger] m.table.seats[i])
            && model::in_play(#[trigger] m.table.seats[j]);
    two_are_in(model::in_play_marks(m.table.seats), i, j);
    search_finds_the_nearest(must, seat);
    progress::collected_is_between_rounds(m.table, m.order, m.dealt);
    let c = Table { action_on: None, ..hand::collected(m.table) };
    progress::same_but_for_action_on(hand::collected(m.table), c, m.order, m.dealt);
    streets_start_over(rules, e, c, m.order, m.dealt);
}

proof fn two_are_in(marks: Seq<bool>, i: int, j: int)
    requires
        0 <= i < j < marks.len(),
        marks[i],
        marks[j],
    ensures
        model::count(marks) >= 2,
{
    model::count_update(marks, i, false);
    soundness::none_marked_counts_zero(marks.update(i, false));
    assert(marks.update(i, false)[j]);
    model::count_bounds(marks.update(i, false));
}

/// When everybody else has folded, the hand is over at once: who is left takes every chip
/// that was put in, nobody else gets anything, and no more cards are dealt.
pub proof fn last_player_takes_it<E: HandEvaluator>(
    rules: BettingRules,
    e: E,
    node: Node,
    raw: Action,
    w: int,
)
    requires
        soundness::node_sound(node),
        node.phase is Decision,
        0 <= w < node.table.seats.len(),
        model::in_play(hand::acted(node, raw).table.seats[w]),
        forall|i: int|
            0 <= i < node.table.seats.len() && i != w ==> !model::in_play(
                #[trigger] hand::acted(node, raw).table.seats[i],
            ),
    ensures
        ({
            let u = hand::acted(node, raw).table;
            let q = hand::stepped(rules, e, node, raw).node;
            &&& q.phase is Terminal
            &&& q.phase->deltas.len() == u.seats.len()
            &&& q.phase->deltas[w] == model::total(model::commitments(u.seats))
            &&& forall|i: int|
                0 <= i < u.seats.len() && i != w ==> #[trigger] q.phase->deltas[i] == 0
            &&& q.table.board == node.table.board
            &&& q.dealt == node.dealt
            &&& q.table.seats.len() == u.seats.len()
            &&& forall|i: int|
                0 <= i < u.seats.len() ==> (#[trigger] q.table.seats[i]).stack == u.seats[i].stack
                    + q.phase->deltas[i]
        }),
{
    progress::acting_is_sound(node, raw);
    let m = hand::acted(node, raw);
    let seat = node.phase->seat;
    soundness::normalized_is_proper(node.table, seat, raw);
    soundness::action_keeps_table(node.table, seat, hand::normalized(node.table, seat, raw));
    let marks = model::in_play_marks(m.table.seats);
    model::count_update(marks, w, false);
    soundness::none_marked_counts_zero(marks.update(w, false));
    assert(hand::still_in(m.table) == 1);
    assert forall|j: int| 0 <= j < w implies !(#[trigger] marks[j]) by {
        assert(!model::in_play(m.table.seats[j]));
    }
    lowest_comes_first(marks, 0, w);
    soundness::collecting_keeps_table(m.table);
}

/// When a hand is played to the end and two or more are in, the chips go by the showdown:
/// each seat is awarded what its hand wins of all chips committed, and the stack grows by
/// that. All five board cards are out.
pub proof fn showdowns_decide<E: HandEvaluator>(rules: BettingRules, e: E, node: Node, raw: Action)
    requires
        soundness::node_sound(node),
        node.phase is Decision,
        rules.big_blind <= CHIP_LIMIT,
        hand::stepped(rules, e, node, raw).node.phase is Terminal,
        exists|i: int, j: int|
            0 <= i < j < node.table.seats.len() && model::in_play(
                #[trigger] hand::acted(node, raw).table.seats[i],
            ) && model::in_play(#[trigger] hand::acted(node, raw).table.seats[j]),
    ensures
        ({
            let u = hand::acted(node, raw).table;
            let q = hand::stepped(rules, e, node, raw).node;
            let board = node.table.board + node.order.subrange(node.dealt, q.dealt);
            let shown = Table { board, ..u };
            &&& q.table.board == board && board.len() == 5
            &&& q.phase->deltas.len() == u.seats.len()
            &&& q.table.seats.len() == u.seats.len()
            &&& q.phase->deltas == hand::showdown(e, shown)
            &&& forall|i: int|
                0 <= i < u.seats.len() ==> (#[trigger] q.table.seats[i]).stack == u.seats[i].stack
                    + q.phase->deltas[i]
        }),
{
    progress::acting_is_sound(node, raw);
    let m = hand::acted(node, raw);
    let seat = node.phase->seat;
    soundness::normalized_is_proper(node.table, seat, raw);
    soundness::action_keeps_table(node.table, seat, hand::normalized(node.table, seat, raw));
    let (i, j) = choose|i: int, j: int|
        0 <= i < j < node.table.seats.len() && model::in_play(#[trigger] m.table.seats[i])
            && model::in_play(#[trigger] m.table.seats[j]);
    two_are_in(model::in_play_marks(m.table.seats), i, j);
    progress::collected_is_between_rounds(m.table, m.order, m.dealt);
    let c = Table { action_on: None, ..hand::collected(m.table) };
    progress::same_but_for_action_on(hand::collected(m.table), c, m.order, m.dealt);
    streets_start_over(rules, e, c, m.order, m.dealt);
    streets_pay_out(rules, e, c, m.order, m.dealt);
    let q = hand::stepped(rules, e, node, raw).node;
    assert(q == hand::streets(rules, e, c, m.order, m.dealt).node);
    let board = node.table.board + node.order.subrange(node.dealt, q.dealt);
    let shown = Table { board, ..m.table };
    let paid = Table { board: q.table.board, ..c };
    same_showdown(e, paid, shown);
    progress::step_is_sound(rules, e, node, raw);
    assert forall|i: int| 0 <= i < m.table.seats.len() implies (#[trigger] q.table.seats[i]).stack
        == m.table.seats[i].stack + q.phase->deltas[i] by {
        assert(c.seats[i].stack == m.table.seats[i].stack);
    }
}

/// The streets pay out by the table that they started from, with the board complete.
proof fn streets_pay_out<E: HandEvaluator>(
    rules: BettingRules,
    e: E,
    t: Table,
    order: Seq<Card>,
    dealt: int,
)
    requires
        progress::between_rounds(t, order, dealt),
        rules.big_blind <= CHIP_LIMIT,
        hand::streets(rules, e, t, order, dealt).node.phase is Terminal,
    ensures
        ({
            let q = hand::streets(rules, e, t, order, dealt).node;
            &&& q.phase->deltas == hand::showdown(e, Table { board: q.table.board, ..t })
            &&& q.table.seats.len() == t.seats.len()
            &&& forall|i: int|
                0 <= i < t.seats.len() ==> (#[trigger] q.table.seats[i]).stack == t.seats[i].stack
                    + q.phase->deltas[i]
        }),
    decreases hand::streets_left(t.street),
{
    let q = hand::streets(rules, e, t, order, dealt).node;
    match hand::next_street(t.street) {
        None => {
            assert(Table { board: q.table.board, ..t } =~= t);
        },
        Some((street, n)) => {
            progress::street_is_sound(rules, t, order, dealt, street, n);
            let t1 = hand::street_dealt(rules, t, order, dealt, street, n);
            progress::nothing_to_collect(t1);
            let c = hand::collected(t1);
            streets_pay_out(rules, e, c, order, dealt + n);
            same_showdown(
                e,
                Table { board: q.table.board, ..c },
                Table { board: q.table.board, ..t },
            );
            assert forall|i: int| 0 <= i < t.seats.len() implies (
            #[trigger] q.table.seats[i]).stack == t.seats[i].stack + q.phase->deltas[i] by {
                assert(c.seats[i].stack == t.seats[i].stack);
            }
        },
    }
}

/// A showdown depends on commitments, cards, who is in, and the dealer alone.
proof fn same_showdown<E: HandEvaluator>(e: E, a: Table, b: Table)
    requires
        a.seats.len() == b.seats.len() <= usize::MAX,
        a.board == b.board,
        a.dealer == b.dealer,
        forall|i: int|
            0 <= i < a.seats.len() ==> {
                &&& (#[trigger] a.seats[i]).committed == b.seats[i].committed
                &&& a.seats[i].status == b.seats[i].status
                &&& a.seats[i].hole == b.seats[i].hole
            },
    ensures
        hand::showdown(e, a) == hand::showdown(e, b),
{
    same_pots(a.seats, b.seats, 0, Seq::empty());
    let pots = pot_calc::showdown_pots(a.seats);
    same_awards(e, a, b, pots, pots.len() as int);
}

proof fn same_levels(a: Seq<Seat>, b: Seq<Seat>, prev: int)
    requires
        a.len() == b.len(),
        forall|i: int| 0 <= i < a.len() ==> (#[trigger] a[i]).committed == b[i].committed,
    ensures
        pot_calc::next_level(a, prev) == pot_calc::next_level(b, prev),
        pot_calc::highest_level(a) == pot_calc::highest_level(b),
    decreases a.len(),
{
    if a.len() > 0 {
        assert(a[a.len() - 1].committed == b[b.len() - 1].committed);
        assert forall|i: int| 0 <= i < a.drop_last().len() implies (
        #[trigger] a.drop_last()[i]).committed == b.drop_last()[i].committed by {
            assert(a[i].committed == b[i].committed);
        }
        same_levels(a.drop_last(), b.drop_last(), prev);
    }
}

proof fn same_pots(a: Seq<Seat>, b: Seq<Seat>, prev: int, pots: Seq<(u32, Seq<usize>)>)
    requires
        a.len() == b.len(),
        forall|i: int|
            0 <= i < a.len() ==> (#[trigger] a[i]).committed == b[i].committed && a[i].status
                == b[i].status,
    ensures
        pot_calc::pots_above(a, prev, pots) == pot_calc::pots_above(b, prev, pots),
    decreases pot_calc::highest_level(a) - prev,
{
    assert forall|i: int| 0 <= i < a.len() implies (#[trigger] a[i]).committed
        == b[i].committed by {}
    same_levels(a, b, prev);
    pot_calc::next_level_bounds(a, prev);
    if let Some(level) = pot_calc::next_level(a, prev) {
        assert(pot_calc::contenders(a, level) =~= pot_calc::contenders(b, level));
        assert(pot_calc::contributors(a, level) =~= pot_calc::contributors(b, level));
        let more = pot_calc::with_slice(
            pots,
            pot_calc::slice(a, prev, level),
            pot_calc::seat_list(pot_calc::contenders(a, level)),
        );
        same_pots(a, b, level, more);
        assert(pot_calc::pots_above(a, prev, pots) == pot_calc::pots_above(a, level, more));
        assert(pot_calc::pots_above(b, prev, pots) == pot_calc::pots_above(b, level, more));
    } else {
        assert(pot_calc::pots_above(a, prev, pots) == pots);
        assert(pot_calc::pots_above(b, prev, pots) == pots);
    }
}

proof fn same_best<E: HandEvaluator>(e: E, a: Table, b: Table, eligible: Seq<usize>)
    requires
        forall|i: int| 0 <= i < a.seats.len() ==> #[trigger] hand::strength(e, a, i)
            == hand::strength(e, b, i),
        forall|k: int| 0 <= k < eligible.len() ==> (#[trigger] eligible[k]) < a.seats.len(),
    ensures
        hand::best_strength(e, a, eligible) == hand::best_strength(e, b, eligible),
    decreases eligible.len(),
{
    if eligible.len() > 0 {
        let head = eligible.drop_last();
        assert forall|k: int| 0 <= k < head.len() implies (#[trigger] head[k])
            < a.seats.len() by {
            assert(eligible[k] < a.seats.len());
        }
        same_best(e, a, b, head);
        assert(eligible[eligible.len() - 1] < a.seats.len());
        assert(hand::strength(e, a, eligible.last() as int) == hand::strength(
            e,
            b,
            eligible.last() as int,
        ));
    }
}

proof fn same_awards<E: HandEvaluator>(
    e: E,
    a: Table,
    b: Table,
    pots: Seq<(u32, Seq<usize>)>,
    n: int,
)
    requires
        a.seats.len() == b.seats.len() <= usize::MAX,
        a.board == b.board,
        a.dealer == b.dealer,
        forall|i: int| 0 <= i < a.seats.len() ==> (#[trigger] a.seats[i]).hole == b.seats[i].hole,
        pots == pot_calc::showdown_pots(a.seats),
        0 <= n <= pots.len(),
    ensures
        hand::with_pots_paid(e, a, pots, n) == hand::with_pots_paid(e, b, pots, n),
    decreases n,
{
    if n > 0 {
        same_awards(e, a, b, pots, n - 1);
        let pot = pots[n - 1];
        pot_calc::pots_are_winnable(a.seats);
        assert(pot_calc::winnable(a.seats, pot));
        assert forall|i: int| 0 <= i < a.seats.len() implies #[trigger] hand::strength(e, a, i)
            == hand::strength(e, b, i) by {
            assert(a.seats[i].hole == b.seats[i].hole);
        }
        same_best(e, a, b, pot.1);
        assert(hand::winner_marks(e, a, pot.1) =~= hand::winner_marks(e, b, pot.1));
        assert(hand::with_pots_paid(e, a, pots, n) =~= hand::with_pots_paid(e, b, pots, n));
    } else {
        assert(hand::with_pots_paid(e, a, pots, n) =~= hand::with_pots_paid(e, b, pots, n));
    }
}

} // verus!
