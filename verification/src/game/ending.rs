//! Every betting round ends.

use vstd::prelude::*;

use crate::cards::{deck, Card, HandEvaluator};
use crate::game::action::Action;
use crate::game::hand;
use crate::game::hand::{Node, Phase, Setup};
use crate::game::model;
use crate::game::model::Table;
use crate::game::progress;
use crate::game::rules::BettingRules;
use crate::game::soundness;
use crate::game::state::{PlayerStatus, Street};

verus! {

/// No player who can act has more in front of them than there is to match.
pub open spec fn level(t: Table) -> bool {
    forall|i: int|
        0 <= i < t.seats.len() && (#[trigger] t.seats[i]).status == PlayerStatus::Active
            ==> t.seats[i].bet <= t.current_bet
}

/// Every player who can act has in front of them what there is to match.
pub open spec fn even(t: Table) -> bool {
    forall|i: int|
        0 <= i < t.seats.len() && (#[trigger] t.seats[i]).status == PlayerStatus::Active
            ==> t.seats[i].bet == t.current_bet
}

/// Every player who can act has matched the bet.
pub open spec fn matched(t: Table) -> bool {
    forall|i: int|
        0 <= i < t.seats.len() && (#[trigger] t.seats[i]).status == PlayerStatus::Active
            ==> t.seats[i].bet >= t.current_bet
}

/// Every full raise goes up by at least one chip.
pub open spec fn steady(t: Table) -> bool {
    t.increment >= 1
}

/// How many players can act.
pub open spec fn actives(t: Table) -> int {
    model::count(model::active_marks(t.seats))
}

/// The chips that the players have left.
pub open spec fn chips_left(t: Table) -> int {
    model::total(model::stacks(t.seats))
}

/// How many players still have to act.
pub open spec fn to_act(t: Table, responded: Seq<bool>) -> int {
    model::count(hand::unsettled_marks(t, responded))
}

/// By how much the bet to match can still go up.
pub open spec fn room(t: Table) -> int {
    hand::CHIP_LIMIT - t.current_bet
}

/// One of four numbers has fallen, and those before it have stayed: the players who
/// can act, the chips they have left, the room above the bet, the players still to
/// act.
pub open spec fn closer(a: (int, int, int, int), b: (int, int, int, int)) -> bool {
    ||| 0 <= b.0 < a.0
    ||| b.0 == a.0 && 0 <= b.1 < a.1
    ||| b.0 == a.0 && b.1 == a.1 && 0 <= b.2 < a.2
    ||| b.0 == a.0 && b.1 == a.1 && b.2 == a.2 && 0 <= b.3 < a.3
}

/// The four numbers.
pub open spec fn distance(t: Table, responded: Seq<bool>) -> (int, int, int, int) {
    (actives(t), chips_left(t), room(t), to_act(t, responded))
}

/// After an answer other than a check of a bet that is owed, the round is closer to
/// its end. A table stays steady.
pub proof fn answers_lead_on(node: Node, raw: Action)
    requires
        soundness::node_sound(node),
        node.phase is Decision,
        steady(node.table),
        hand::unsettled_marks(node.table, node.phase->responded)[node.phase->seat],
    ensures
        steady(hand::acted(node, raw).table),
        raw == Action::Check && hand::owed(node.table, node.phase->seat) > 0 || closer(
            distance(node.table, node.phase->responded),
            distance(hand::acted(node, raw).table, hand::acted(node, raw).phase->responded),
        ),
{
    let t = node.table;
    let seat = node.phase->seat;
    let responded = node.phase->responded;
    let action = hand::normalized(t, seat, raw);
    soundness::normalized_is_proper(t, seat, raw);
    soundness::action_keeps_table(t, seat, action);
    soundness::amounts_within_limit(t);
    let u = hand::acted(node, raw).table;
    let after = hand::acted(node, raw).phase->responded;
    soundness::amounts_within_limit(u);
    let p = t.seats[seat];
    assert(soundness::seat_sound(p));

    let act_t = model::active_marks(t.seats);
    let act_u = model::active_marks(u.seats);
    assert(act_u =~= act_t.update(seat, act_u[seat]));
    model::count_update(act_t, seat, act_u[seat]);
    model::count_bounds(act_u);
    model::count_bounds(hand::unsettled_marks(u, after));
    soundness::with_seat_totals(t, seat, u.seats[seat]);
    assert(u.seats =~= hand::with_seat(t, seat, u.seats[seat]).seats);
    if u.seats[seat] == p && (action == Action::Check || action == Action::Call) {
        // Nothing was put in: the player has matched the bet and has now responded.
        if hand::owed(t, seat) == 0 {
            let un_t = hand::unsettled_marks(t, responded);
            let un_u = hand::unsettled_marks(u, after);
            assert(p.bet >= t.current_bet);
            assert(un_u =~= un_t.update(seat, false)) by {
                assert forall|i: int| 0 <= i < un_u.len() implies un_u[i] == un_t.update(
                    seat,
                    false,
                )[i] by {
                    if i != seat {
                        assert(u.seats[i] == t.seats[i]);
                    }
                }
            }
            model::count_update(un_t, seat, false);
        }
    }
}

/// On a level table nobody goes above the bet to match: an action keeps it level.
pub proof fn actions_keep_level(node: Node, raw: Action)
    requires
        soundness::node_sound(node),
        node.phase is Decision,
        level(node.table),
    ensures
        level(hand::acted(node, raw).table),
{
    let t = node.table;
    let seat = node.phase->seat;
    let action = hand::normalized(t, seat, raw);
    soundness::normalized_is_proper(t, seat, raw);
    soundness::action_keeps_table(t, seat, action);
    let u = hand::acted(node, raw).table;
    let p = t.seats[seat];
    assert(soundness::seat_sound(p) && p.bet <= t.current_bet);
    assert forall|i: int|
        0 <= i < u.seats.len() && (#[trigger] u.seats[i]).status
            == PlayerStatus::Active implies u.seats[i].bet <= u.current_bet by {
        assert(u.current_bet >= t.current_bet);
        if i != seat {
            assert(u.seats[i] == t.seats[i]);
        }
    }
}

/// When a round is over, everybody who can act has matched the bet; on a level table
/// everybody is even.
pub proof fn rounds_end_matched(t: Table, responded: Seq<bool>, seat: int)
    requires
        1 <= t.seats.len(),
        0 <= seat < t.seats.len(),
        hand::next_after(t, responded, seat) is RoundOver,
    ensures
        matched(t),
        level(t) ==> even(t),
{
    progress::next_is_a_seat(t, responded, seat);
    assert forall|i: int|
        0 <= i < t.seats.len() && (#[trigger] t.seats[i]).status
            == PlayerStatus::Active implies t.seats[i].bet >= t.current_bet by {
        assert(!hand::unsettled_marks(t, responded)[i]);
    }
}

/// A new street is steady and level.
pub proof fn new_street_is_steady(
    rules: BettingRules,
    t: Table,
    order: Seq<Card>,
    dealt: int,
    street: Street,
    n: int,
)
    requires
        rules.big_blind >= 1,
    ensures
        steady(hand::street_dealt(rules, t, order, dealt, street, n)),
        level(hand::street_dealt(rules, t, order, dealt, street, n)),
{
}

/// Where the hand goes on after a round, it goes on with the first active player on a
/// later street, nobody having acted yet, at a steady and level table.
pub proof fn streets_lead_on<E: HandEvaluator>(
    rules: BettingRules,
    e: E,
    t: Table,
    order: Seq<Card>,
    dealt: int,
)
    requires
        progress::between_rounds(t, order, dealt),
        rules.big_blind <= hand::CHIP_LIMIT,
        rules.big_blind >= 1,
    ensures
        ({
            let node = hand::streets(rules, e, t, order, dealt).node;
            node.phase matches Phase::Decision { seat, responded } ==> {
                &&& responded == hand::none_marked(node.table.seats.len())
                &&& 0 <= hand::streets_left(node.table.street) < hand::streets_left(t.street)
                &&& steady(node.table)
                &&& level(node.table)
                &&& node.table.action_on == Some(seat as usize)
            }
        }),
    decreases hand::streets_left(t.street),
{
    if let Some((street, n)) = hand::next_street(t.street) {
        progress::street_is_sound(rules, t, order, dealt, street, n);
        let t1 = hand::street_dealt(rules, t, order, dealt, street, n);
        new_street_is_steady(rules, t, order, dealt, street, n);
        let marks = model::active_marks(t1.seats);
        soundness::next_marked_finds(marks, t1.dealer as int);
        let first = hand::next_marked(marks, t1.dealer as int, 1);
        if !(model::count(marks) >= 2 && first is Some) {
            progress::nothing_to_collect(t1);
            streets_lead_on(rules, e, hand::collected(t1), order, dealt + n);
        } else {
            let u = Table { action_on: Some(first->0 as usize), ..t1 };
            assert(u.seats == t1.seats);
        }
    }
}

/// A hand without ante, whose big blind is no smaller than the small blind, opens
/// level where at least two are in.
pub proof fn plain_blinds_open_level(s: Setup)
    requires
        progress::seating_ok(s),
        s.rules.ante == 0,
        s.rules.small_blind <= s.rules.big_blind,
        hand::still_in(hand::opening_table(s)) >= 2,
    ensures
        level(hand::opening_table(s)),
{
    progress::after_blinds_is_sound(s);
    progress::fresh_is_sound(s);
    let t0 = hand::fresh_table(s);
    progress::blind_seats(t0);
    let sb = hand::small_blind_seat(t0);
    let bb = hand::big_blind_seat(t0);
    let t1 = hand::posted(t0, sb, s.rules.small_blind as int);
    let t2 = progress::after_blinds(s);
    let t3 = hand::dealt_in(s).0;
    progress::holes_take_two_each(t2, deck::shuffled(s.deck_seed), s.stacks.len() as int);
    let t = hand::opening_table(s);
    if hand::still_in(t) >= 2 {
        if sb == bb {
            // Only one player took part from the start.
            sole_blind_is_alone(t0);
            let in_0 = model::in_play_marks(t0.seats);
            let in_t = model::in_play_marks(t.seats);
            assert forall|i: int| 0 <= i < in_t.len() && i != sb implies !in_t[i] by {
                assert(t.seats[i] == (model::Seat { status: t.seats[i].status, ..t3.seats[i] }));
                assert(t3.seats[i] == (model::Seat { hole: t3.seats[i].hole, ..t2.seats[i] }));
                assert(t2.seats[i] == t0.seats[i]);
                assert(!in_0[i]);
            }
            alone_counts_one(in_t, sb);
            assert(false);
        }
        assert forall|i: int|
            0 <= i < t.seats.len() && (#[trigger] t.seats[i]).status
                == PlayerStatus::Active implies t.seats[i].bet <= t.current_bet by {
            assert(t.seats[i] == (model::Seat { status: t.seats[i].status, ..t3.seats[i] }));
            assert(t3.seats[i] == (model::Seat { hole: t3.seats[i].hole, ..t2.seats[i] }));
        }
    }
}

/// Where both blinds fall on one seat, nobody else is in play.
proof fn sole_blind_is_alone(t: Table)
    requires
        soundness::seating_sound(t),
        t.dealer < t.seats.len() || hand::still_in(t) >= 1,
        hand::small_blind_seat(t) == hand::big_blind_seat(t),
    ensures
        forall|i: int|
            0 <= i < t.seats.len() && i != hand::small_blind_seat(t) ==> !model::in_play_marks(
                t.seats,
            )[i],
{
    let marks = model::in_play_marks(t.seats);
    let n = marks.len() as int;
    let sb = hand::small_blind_seat(t);
    progress::blind_seats(t);
    soundness::next_marked_finds(marks, sb);
    soundness::none_marked_counts_zero(marks);
    assert forall|i: int| 0 <= i < n && i != sb implies !marks[i] by {
        if marks[i] {
            // The search from `sb` meets `i` before it comes back to `sb`.
            soundness::every_seat_is_ahead(n, sb, i);
            let d = choose|d: int| 1 <= d <= n && #[trigger] ((sb + d) % n) == i;
            vstd::arithmetic::div_mod::lemma_fundamental_div_mod_converse(sb + n, n, 1, sb);
            assert((sb + d) % n == i && d < n);
            closer_seat_wins(marks, sb, 1, i);
        }
    }
}

/// A search that starts behind `from` does not come back to `from` while another
/// marked seat lies ahead.
proof fn closer_seat_wins(marks: Seq<bool>, from: int, i: int, seat: int)
    requires
        0 <= from < marks.len(),
        0 <= seat < marks.len(),
        seat != from,
        marks[seat],
        1 <= i,
        exists|d: int|
            i <= d < marks.len() && #[trigger] ((from + d) % (marks.len() as int)) == seat,
    ensures
        hand::next_marked(marks, from, i) matches Some(s) && s != from,
    decreases marks.len() - i,
{
    let n = marks.len() as int;
    let d = choose|d: int| i <= d < marks.len() && #[trigger] ((from + d) % n) == seat;
    let here = (from + i) % n;
    vstd::arithmetic::div_mod::lemma_mod_bound(from + i, n);
    if here == from {
        // `i` is less than once around.
        vstd::arithmetic::div_mod::lemma_small_mod(from as nat, n as nat);
        if from + i < n {
            vstd::arithmetic::div_mod::lemma_small_mod((from + i) as nat, n as nat);
        } else {
            vstd::arithmetic::div_mod::lemma_fundamental_div_mod_converse(
                from + i,
                n,
                1,
                from + i - n,
            );
        }
        assert(false);
    }
    if !marks[here] {
        assert(d != i);
        closer_seat_wins(marks, from, i + 1, seat);
    }
}

proof fn alone_counts_one(marks: Seq<bool>, seat: int)
    requires
        0 <= seat < marks.len(),
        forall|i: int| 0 <= i < marks.len() && i != seat ==> !marks[i],
    ensures
        model::count(marks) <= 1,
{
    let without = marks.update(seat, false);
    model::count_update(marks, seat, false);
    soundness::none_marked_counts_zero(without);
}

} // verus!
