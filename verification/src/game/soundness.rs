//! What holds of a table throughout a hand.

use vstd::prelude::*;

use crate::cards::{deck, evaluator, Card, HandEvaluator};
use crate::game::action::Action;
use crate::game::hand;
use crate::game::hand::{Node, Phase, CHIP_LIMIT};
use crate::game::model;
use crate::game::model::{Seat, Table};
use crate::game::pot_calc;
use crate::game::state::{PlayerStatus, Street};

verus! {

/// No seat owes chips it does not have; who can act has chips, who is out has none.
pub open spec fn seat_sound(p: Seat) -> bool {
    &&& 0 <= p.stack
    &&& 0 <= p.bet <= p.committed
    &&& p.status == PlayerStatus::Active ==> p.stack > 0
    &&& p.status == PlayerStatus::Out ==> p.stack == 0 && p.committed == 0
}

/// The table can seat its players: there is one, and seat arithmetic fits.
pub open spec fn seating_sound(t: Table) -> bool {
    &&& 1 <= t.seats.len()
    &&& t.sat_out.len() == t.seats.len()
    &&& t.dealer + t.seats.len() <= usize::MAX
    &&& 2 * t.seats.len() <= usize::MAX
}

/// The chips of all seats, in front of them and in the middle, are within the limit.
pub open spec fn chips_sound(t: Table) -> bool {
    &&& forall|i: int| 0 <= i < t.seats.len() ==> seat_sound(#[trigger] t.seats[i])
    &&& model::total(model::stacks(t.seats)) + model::total(model::commitments(t.seats))
        <= CHIP_LIMIT
}

/// No amount is negative, who is out has committed nothing, and all chips together
/// are within the limit.
pub open spec fn funds_sound(t: Table) -> bool {
    &&& forall|i: int|
        0 <= i < t.seats.len() ==> {
            &&& 0 <= (#[trigger] t.seats[i]).stack
            &&& 0 <= t.seats[i].committed
            &&& t.seats[i].status == PlayerStatus::Out ==> t.seats[i].committed == 0
        }
    &&& model::total(model::stacks(t.seats)) + model::total(model::commitments(t.seats))
        <= CHIP_LIMIT
}

/// The middle holds what the seats committed, no more and no less.
pub open spec fn pot_sound(t: Table) -> bool {
    &&& 0 <= t.main
    &&& hand::chips_in_middle(t) == model::total(model::commitments(t.seats))
}

/// The amounts that govern the betting are within the limit.
pub open spec fn betting_sound(t: Table) -> bool {
    &&& 0 <= t.current_bet <= CHIP_LIMIT
    &&& 0 <= t.increment <= CHIP_LIMIT
    &&& 0 <= t.short <= u32::MAX
}

pub open spec fn table_sound(t: Table) -> bool {
    &&& seating_sound(t)
    &&& chips_sound(t)
    &&& pot_sound(t)
    &&& betting_sound(t)
}

/// How many cards the board has on `street`.
pub open spec fn board_size(street: Street) -> int {
    match street {
        Street::Preflop => 0,
        Street::Flop => 3,
        Street::Turn => 4,
        Street::River => 5,
        Street::Showdown => 5,
    }
}

/// `cards` are different cards among the first `dealt` of the deck.
pub open spec fn dealt_cards(cards: Seq<Card>, order: Seq<Card>, dealt: int) -> bool {
    &&& cards.no_duplicates()
    &&& forall|k: int|
        0 <= k < cards.len() ==> order.take(dealt).contains(#[trigger] cards[k])
}

/// The board has the size that the street asks for, every seat in play has two
/// cards, no card is seen twice, and the deck holds the rest of the board.
pub open spec fn cards_sound(t: Table, order: Seq<Card>, dealt: int) -> bool {
    &&& deck::full_deck(order)
    &&& 0 <= dealt
    &&& t.board.len() == board_size(t.street)
    &&& dealt + 5 - t.board.len() <= 52
    &&& forall|i: int|
        0 <= i < t.seats.len() && model::in_play(#[trigger] t.seats[i]) ==> {
            &&& t.seats[i].hole is Some
            &&& dealt_cards(hand::seven(t, i), order, dealt)
        }
}

/// A node from which a hand goes on, or at which it ended, in good order.
pub open spec fn node_sound(node: Node) -> bool {
    match node.phase {
        Phase::Decision { seat, responded } => {
            &&& table_sound(node.table)
            &&& cards_sound(node.table, node.order, node.dealt)
            &&& node.table.street != Street::Showdown
            &&& 0 <= seat < node.table.seats.len()
            &&& node.table.seats[seat].status == PlayerStatus::Active
            &&& responded.len() == node.table.seats.len()
        },
        Phase::Terminal { deltas } => {
            &&& seating_sound(node.table)
            &&& deltas.len() == node.table.seats.len()
            &&& forall|i: int|
                0 <= i < deltas.len() ==> 0 <= #[trigger] deltas[i] <= CHIP_LIMIT && 0
                    <= node.table.seats[i].committed <= CHIP_LIMIT
        },
    }
}

// ---------------------------------------------------------------------------
// Searching
// ---------------------------------------------------------------------------

/// A seat that a search around the table finds is marked.
pub proof fn next_marked_is_marked(marks: Seq<bool>, from: int, i: int)
    requires
        0 <= from,
        0 <= i,
        1 <= marks.len(),
    ensures
        hand::next_marked(marks, from, i) matches Some(s) ==> 0 <= s < marks.len() && marks[s],
    decreases marks.len() + 1 - i,
{
    if i <= marks.len() {
        let n = marks.len() as int;
        vstd::arithmetic::div_mod::lemma_mod_bound(from + i, n);
        next_marked_is_marked(marks, from, i + 1);
    }
}

/// A search once around the table misses no marked seat.
pub proof fn next_marked_misses_none(marks: Seq<bool>, from: int, i: int, seat: int)
    requires
        0 <= from,
        1 <= i,
        0 <= seat < marks.len(),
        marks[seat],
        // `seat` is at a distance from `i` up to the number of seats
        exists|d: int| i <= d <= marks.len() && #[trigger] ((from + d) % (marks.len() as int)) == seat,
    ensures
        hand::next_marked(marks, from, i) is Some,
    decreases marks.len() + 1 - i,
{
    let n = marks.len() as int;
    let d = choose|d: int| i <= d <= marks.len() && #[trigger] ((from + d) % n) == seat;
    if d != i && !marks[(from + i) % n] {
        assert(i + 1 <= d);
        next_marked_misses_none(marks, from, i + 1, seat);
    }
}

/// Every seat lies at some distance from 1 up to the number of seats.
pub proof fn every_seat_is_ahead(n: int, from: int, seat: int)
    requires
        0 <= from,
        0 <= seat < n,
    ensures
        exists|d: int| 1 <= d <= n && #[trigger] ((from + d) % n) == seat,
{
    let r = from % n;
    vstd::arithmetic::div_mod::lemma_fundamental_div_mod(from, n);
    let q = from / n;
    vstd::arithmetic::div_mod::lemma_mod_bound(from, n);
    if seat > r {
        let d = seat - r;
        assert(n * q == q * n) by (nonlinear_arith);
        assert(from + d == q * n + seat);
        vstd::arithmetic::div_mod::lemma_fundamental_div_mod_converse(from + d, n, q, seat);
        assert((from + d) % n == seat);
    } else {
        let d = seat - r + n;
        assert((q + 1) * n == n * q + n) by (nonlinear_arith);
        assert(from + d == (q + 1) * n + seat);
        vstd::arithmetic::div_mod::lemma_fundamental_div_mod_converse(from + d, n, q + 1, seat);
        assert((from + d) % n == seat);
    }
}

/// A search once around the table finds a seat exactly if one is marked.
pub proof fn next_marked_finds(marks: Seq<bool>, from: int)
    requires
        0 <= from,
        1 <= marks.len(),
    ensures
        hand::next_marked(marks, from, 1) is Some <==> (exists|i: int|
            0 <= i < marks.len() && marks[i]),
        hand::next_marked(marks, from, 1) matches Some(s) ==> 0 <= s < marks.len() && marks[s],
{
    next_marked_is_marked(marks, from, 1);
    if exists|i: int| 0 <= i < marks.len() && marks[i] {
        let i = choose|i: int| 0 <= i < marks.len() && marks[i];
        every_seat_is_ahead(marks.len() as int, from, i);
        next_marked_misses_none(marks, from, 1, i);
    }
}

/// The lowest marked position is marked, and exists exactly if one is marked.
pub proof fn first_marked_finds(marks: Seq<bool>, i: int)
    requires
        0 <= i,
    ensures
        hand::first_marked(marks, i) matches Some(s) ==> i <= s < marks.len() && marks[s],
        hand::first_marked(marks, i) is Some <==> (exists|k: int|
            i <= k < marks.len() && marks[k]),
    decreases marks.len() - i,
{
    if i < marks.len() {
        first_marked_finds(marks, i + 1);
    }
}

/// With nothing marked the count is zero; with something marked it is not.
pub proof fn none_marked_counts_zero(marks: Seq<bool>)
    ensures
        model::count(marks) == 0 <==> (forall|i: int| 0 <= i < marks.len() ==> !marks[i]),
        model::count(marks) >= 0,
    decreases marks.len(),
{
    if marks.len() > 0 {
        let head = marks.drop_last();
        none_marked_counts_zero(head);
        if forall|i: int| 0 <= i < head.len() ==> !head[i] {
            if !marks.last() {
                assert forall|i: int| 0 <= i < marks.len() implies !marks[i] by {
                    if i < head.len() {
                        assert(!head[i]);
                    }
                }
            } else {
                assert(marks[marks.len() - 1]);
            }
        } else {
            let i = choose|i: int| 0 <= i < head.len() && head[i];
            assert(marks[i]);
        }
    }
}

/// Where every marked entry is at least one, there are no more marks than the sum.
pub proof fn count_below_total(marks: Seq<bool>, xs: Seq<int>)
    requires
        marks.len() == xs.len(),
        forall|i: int| 0 <= i < xs.len() ==> xs[i] >= 0,
        forall|i: int| 0 <= i < xs.len() && marks[i] ==> xs[i] >= 1,
    ensures
        model::count(marks) <= model::total(xs),
    decreases xs.len(),
{
    if xs.len() > 0 {
        count_below_total(marks.drop_last(), xs.drop_last());
    }
}

/// A prefix has no more marks than the whole.
pub proof fn count_prefix(marks: Seq<bool>, n: int)
    requires
        0 <= n <= marks.len(),
    ensures
        0 <= model::count(marks.take(n)) <= model::count(marks),
    decreases marks.len(),
{
    model::count_bounds(marks);
    if n == marks.len() {
        assert(marks.take(n) =~= marks);
    } else {
        count_prefix(marks.drop_last(), n);
        assert(marks.drop_last().take(n) =~= marks.take(n));
    }
}


// ---------------------------------------------------------------------------
// Chips
// ---------------------------------------------------------------------------

/// Replacing one seat changes each sum by that seat's difference.
pub proof fn with_seat_totals(t: Table, i: int, p: Seat)
    requires
        0 <= i < t.seats.len(),
    ensures
        ({
            let u = hand::with_seat(t, i, p).seats;
            &&& model::total(model::stacks(u)) == model::total(model::stacks(t.seats))
                - t.seats[i].stack + p.stack
            &&& model::total(model::commitments(u)) == model::total(model::commitments(t.seats))
                - t.seats[i].committed + p.committed
            &&& model::total(model::bets(u)) == model::total(model::bets(t.seats)) - t.seats[i].bet
                + p.bet
        }),
{
    let u = hand::with_seat(t, i, p).seats;
    assert(model::stacks(u) =~= model::stacks(t.seats).update(i, p.stack));
    assert(model::commitments(u) =~= model::commitments(t.seats).update(i, p.committed));
    assert(model::bets(u) =~= model::bets(t.seats).update(i, p.bet));
    model::total_update(model::stacks(t.seats), i, p.stack);
    model::total_update(model::commitments(t.seats), i, p.committed);
    model::total_update(model::bets(t.seats), i, p.bet);
}

/// On a sound table no amount exceeds the limit.
pub proof fn amounts_within_limit(t: Table)
    requires
        chips_sound(t),
    ensures
        forall|i: int|
            0 <= i < t.seats.len() ==> (#[trigger] t.seats[i]).stack + t.seats[i].committed
                <= CHIP_LIMIT,
        0 <= model::total(model::stacks(t.seats)),
        0 <= model::total(model::commitments(t.seats)) <= CHIP_LIMIT,
        0 <= model::total(model::bets(t.seats)) <= model::total(model::commitments(t.seats)),
        0 <= model::side_total(t.side),
        pot_sound(t) ==> 0 <= hand::pot_total(t) <= CHIP_LIMIT,
{
    let ss = model::stacks(t.seats);
    let cs = model::commitments(t.seats);
    let bs = model::bets(t.seats);
    let n = t.seats.len() as int;
    assert forall|i: int| 0 <= i < n implies ss[i] >= 0 && cs[i] >= 0 && bs[i] >= 0 && bs[i]
        <= cs[i] by {
        assert(seat_sound(t.seats[i]));
    }
    model::total_bounds(ss, n);
    model::total_bounds(cs, n);
    model::total_bounds(bs, n);
    assert(ss.take(n) =~= ss && cs.take(n) =~= cs && bs.take(n) =~= bs);
    assert forall|i: int| 0 <= i < n implies (#[trigger] t.seats[i]).stack + t.seats[i].committed
        <= CHIP_LIMIT by {
        assert(ss[i] <= model::total(ss));
        assert(cs[i] <= model::total(cs));
    }
    let rest: Seq<int> = Seq::new(n as nat, |i: int| cs[i] - bs[i]);
    model::total_bounds(rest, n);
    assert(rest.take(n) =~= rest);
    model::total_sum(bs, rest, cs);
    model::side_total_grows(t.side, t.side.len() as int);
    assert(t.side.take(t.side.len() as int) =~= t.side);
}

/// A raise that was let through: it leaves chips behind and is a full raise.
pub open spec fn proper(t: Table, seat: int, action: Action) -> bool {
    action matches Action::Raise(amount) ==> {
        &&& hand::excess(amount as int, t.seats[seat].bet) < t.seats[seat].stack
        &&& amount >= hand::min_raise_total(t)
    }
}

/// What is carried out is always proper.
pub proof fn normalized_is_proper(t: Table, seat: int, action: Action)
    ensures
        proper(t, seat, hand::normalized(t, seat, action)),
{
}

/// An action keeps the table sound, moves chips only from the acting seat to the
/// middle, and leaves every other seat alone.
pub proof fn action_keeps_table(t: Table, seat: int, action: Action)
    requires
        table_sound(t),
        0 <= seat < t.seats.len(),
        t.seats[seat].status == PlayerStatus::Active,
        proper(t, seat, action),
    ensures
        ({
            let u = hand::action_effect(t, seat, action).0;
            &&& table_sound(u)
            &&& u.seats.len() == t.seats.len()
            &&& u.street == t.street && u.board == t.board && u.sat_out == t.sat_out
            &&& u.dealer == t.dealer && u.hand_id == t.hand_id
            &&& u.main == t.main && u.side == t.side
            &&& forall|i: int|
                0 <= i < t.seats.len() && i != seat ==> #[trigger] u.seats[i] == t.seats[i]
            &&& u.seats[seat].hole == t.seats[seat].hole
            &&& u.seats[seat].stack + u.seats[seat].committed == t.seats[seat].stack
                + t.seats[seat].committed
            &&& u.seats[seat].status != PlayerStatus::Out
        }),
{
    amounts_within_limit(t);
    let u = hand::action_effect(t, seat, action).0;
    let p = u.seats[seat];
    assert(seat_sound(t.seats[seat]));
    with_seat_totals(t, seat, p);
    assert(u.seats =~= hand::with_seat(t, seat, p).seats);
    assert(seat_sound(p));
    assert forall|i: int| 0 <= i < u.seats.len() implies seat_sound(#[trigger] u.seats[i]) by {
        if i != seat {
            assert(seat_sound(t.seats[i]));
        }
    }
    amounts_within_limit(u);
}

/// Collecting the bets moves them into the pot and changes nothing else.
pub proof fn collecting_keeps_table(t: Table)
    requires
        table_sound(t),
    ensures
        table_sound(hand::collected(t)),
        model::commitments(hand::collected(t).seats) == model::commitments(t.seats),
        model::stacks(hand::collected(t).seats) == model::stacks(t.seats),
        model::total(model::bets(hand::collected(t).seats)) == 0,
        hand::pot_total(hand::collected(t)) == model::total(model::commitments(t.seats)),
{
    amounts_within_limit(t);
    let u = hand::collected(t);
    assert(model::stacks(u.seats) =~= model::stacks(t.seats));
    assert(model::commitments(u.seats) =~= model::commitments(t.seats));
    model::total_zeros(model::bets(u.seats));
    assert forall|i: int| 0 <= i < u.seats.len() implies seat_sound(#[trigger] u.seats[i]) by {
        assert(seat_sound(t.seats[i]));
    }
}


// ---------------------------------------------------------------------------
// Payout
// ---------------------------------------------------------------------------

/// The strongest hand among some seats is held by one of them.
pub proof fn best_is_held<E: HandEvaluator>(e: E, t: Table, eligible: Seq<usize>)
    requires
        eligible.len() > 0,
    ensures
        exists|k: int|
            0 <= k < eligible.len() && hand::strength(e, t, #[trigger] eligible[k] as int)
                == hand::best_strength(e, t, eligible),
        forall|k: int|
            0 <= k < eligible.len() ==> hand::strength(e, t, #[trigger] eligible[k] as int)
                <= hand::best_strength(e, t, eligible),
    decreases eligible.len(),
{
    let head = eligible.drop_last();
    let m = eligible.len() - 1;
    assert(eligible[m] == eligible.last());
    if head.len() > 0 {
        best_is_held(e, t, head);
        let k = choose|k: int|
            0 <= k < head.len() && hand::strength(e, t, #[trigger] head[k] as int)
                == hand::best_strength(e, t, head);
        assert(eligible[k] == head[k]);
        assert forall|j: int| 0 <= j < eligible.len() implies hand::strength(
            e,
            t,
            #[trigger] eligible[j] as int,
        ) <= hand::best_strength(e, t, eligible) by {
            if j < m {
                assert(head[j] == eligible[j]);
            }
        }
    }
}

/// Equal shares for the marked seats sum up to the share times their number.
pub proof fn shares_total(winners: Seq<bool>, share: int, shares: Seq<int>)
    requires
        shares.len() == winners.len(),
        forall|i: int|
            0 <= i < winners.len() ==> #[trigger] shares[i] == (if winners[i] {
                share
            } else {
                0
            }),
    ensures
        model::total(shares) == model::count(winners) * share,
    decreases winners.len(),
{
    let k = model::count(winners);
    if winners.len() > 0 {
        assert(shares.last() == shares[shares.len() - 1]);
        assert forall|i: int| 0 <= i < winners.len() - 1 implies #[trigger] shares.drop_last()[i]
            == (if winners.drop_last()[i] {
            share
        } else {
            0
        }) by {
            assert(shares.drop_last()[i] == shares[i]);
        }
        shares_total(winners.drop_last(), share, shares.drop_last());
        let h = model::count(winners.drop_last());
        assert((h + 1) * share == h * share + share) by (nonlinear_arith);
    } else {
        assert(k * share == 0) by (nonlinear_arith)
            requires
                k == 0,
        ;
    }
}

/// Splitting a pot gives away exactly the pot: equal shares to the winners, and the
/// odd chips to the first of them left of the dealer.
pub proof fn split_is_exact(amount: int, winners: Seq<bool>, dealer: int)
    requires
        0 <= amount,
        0 <= dealer,
        model::count(winners) >= 1,
    ensures
        model::total(
            Seq::new(winners.len(), |i: int| hand::split_share(amount, winners, dealer, i)),
        ) == amount,
        forall|i: int|
            0 <= i < winners.len() ==> 0 <= #[trigger] hand::split_share(
                amount,
                winners,
                dealer,
                i,
            ) <= amount,
{
    let k = model::count(winners);
    let n = winners.len();
    none_marked_counts_zero(winners);
    let some = choose|i: int| 0 <= i < n && winners[i];
    next_marked_finds(winners, dealer);
    let first = hand::next_marked(winners, dealer, 1)->0;
    let share = amount / k;
    let odd = amount % k;
    vstd::arithmetic::div_mod::lemma_fundamental_div_mod(amount, k);
    vstd::arithmetic::div_mod::lemma_div_pos_is_pos(amount, k);
    vstd::arithmetic::div_mod::lemma_mod_bound(amount, k);
    let shares: Seq<int> = Seq::new(
        n,
        |i: int|
            if winners[i] {
                share
            } else {
                0
            },
    );
    shares_total(winners, share, shares);
    let zeros: Seq<int> = Seq::new(n, |i: int| 0);
    model::total_zeros(zeros);
    model::total_update(zeros, first, odd);
    let all: Seq<int> = Seq::new(n, |i: int| hand::split_share(amount, winners, dealer, i));
    model::total_sum(shares, zeros.update(first, odd), all);
    model::total_bounds(all, n as int);
    assert forall|i: int| 0 <= i < n implies 0 <= #[trigger] hand::split_share(
        amount,
        winners,
        dealer,
        i,
    ) <= amount by {
        assert(all[i] <= model::total(all));
    }
}

/// Paying out a pot that can be won adds exactly the pot to the awards.
pub proof fn pot_is_paid_exactly<E: HandEvaluator>(
    e: E,
    t: Table,
    deltas: Seq<int>,
    pot: (u32, Seq<usize>),
)
    requires
        deltas.len() == t.seats.len(),
        t.seats.len() <= usize::MAX,
        pot_calc::winnable(t.seats, pot),
        forall|i: int| 0 <= i < deltas.len() ==> 0 <= #[trigger] deltas[i],
    ensures
        hand::with_pot_paid(e, t, deltas, pot).len() == deltas.len(),
        model::total(hand::with_pot_paid(e, t, deltas, pot)) == model::total(deltas) + pot.0,
        forall|i: int|
            0 <= i < deltas.len() ==> deltas[i] <= #[trigger] hand::with_pot_paid(
                e,
                t,
                deltas,
                pot,
            )[i],
        pot.1.len() >= 2 ==> model::count(hand::winner_marks(e, t, pot.1)) >= 1,
{
    let after = hand::with_pot_paid(e, t, deltas, pot);
    if pot.1.len() == 1 {
        let s = pot.1[0] as int;
        model::total_update(deltas, s, deltas[s] + pot.0);
    } else {
        let winners = hand::winner_marks(e, t, pot.1);
        best_is_held(e, t, pot.1);
        let k = choose|k: int|
            0 <= k < pot.1.len() && hand::strength(e, t, #[trigger] pot.1[k] as int)
                == hand::best_strength(e, t, pot.1);
        assert(winners[pot.1[k] as int]);
        none_marked_counts_zero(winners);
        split_is_exact(pot.0 as int, winners, t.dealer as int);
        let parts: Seq<int> = Seq::new(
            winners.len(),
            |i: int| hand::split_share(pot.0 as int, winners, t.dealer as int, i),
        );
        model::total_sum(deltas, parts, after);
        assert forall|i: int| 0 <= i < deltas.len() implies deltas[i] <= #[trigger] after[i] by {
            assert(hand::split_share(pot.0 as int, winners, t.dealer as int, i) >= 0);
        }
    }
}

/// Paying out pots that can be won gives away exactly what they hold.
pub proof fn pots_are_paid_exactly<E: HandEvaluator>(
    e: E,
    t: Table,
    pots: Seq<(u32, Seq<usize>)>,
    n: int,
)
    requires
        0 <= n <= pots.len(),
        t.seats.len() <= usize::MAX,
        forall|p: int| 0 <= p < pots.len() ==> pot_calc::winnable(t.seats, #[trigger] pots[p]),
    ensures
        hand::with_pots_paid(e, t, pots, n).len() == t.seats.len(),
        model::total(hand::with_pots_paid(e, t, pots, n)) == pot_calc::pots_total(pots.take(n)),
        forall|i: int|
            0 <= i < t.seats.len() ==> 0 <= #[trigger] hand::with_pots_paid(e, t, pots, n)[i],
    decreases n,
{
    if n > 0 {
        let before = hand::with_pots_paid(e, t, pots, n - 1);
        pots_are_paid_exactly(e, t, pots, n - 1);
        assert(pot_calc::winnable(t.seats, pots[n - 1]));
        pot_is_paid_exactly(e, t, before, pots[n - 1]);
        assert(pots.take(n).drop_last() =~= pots.take(n - 1));
        assert forall|i: int| 0 <= i < t.seats.len() implies 0 <= #[trigger] hand::with_pots_paid(
            e,
            t,
            pots,
            n,
        )[i] by {
            assert(before[i] <= hand::with_pot_paid(e, t, before, pots[n - 1])[i]);
        }
    } else {
        model::total_zeros(hand::with_pots_paid(e, t, pots, n));
        assert(pots.take(0) =~= Seq::<(u32, Seq<usize>)>::empty());
    }
}

/// Cards dealt from a full deck are cards.
pub proof fn dealt_cards_are_cards(cards: Seq<Card>, order: Seq<Card>, dealt: int)
    requires
        deck::full_deck(order),
        dealt_cards(cards, order, dealt),
        0 <= dealt <= 52,
    ensures
        evaluator::all_cards(cards),
        cards.no_duplicates(),
{
    assert forall|i: int| 0 <= i < cards.len() implies 0 <= (#[trigger] cards[i]).id() < 52 by {
        assert(order.take(dealt).contains(cards[i]));
        let x = choose|x: int| 0 <= x < dealt && order.take(dealt)[x] == cards[i];
        assert(order[x] == cards[i]);
    }
}

/// A table with sound chips has sound funds.
pub proof fn chips_are_funds(t: Table)
    requires
        chips_sound(t),
    ensures
        funds_sound(t),
{
    assert forall|i: int| 0 <= i < t.seats.len() implies {
        &&& 0 <= (#[trigger] t.seats[i]).stack
        &&& 0 <= t.seats[i].committed
        &&& t.seats[i].status == PlayerStatus::Out ==> t.seats[i].committed == 0
    } by {
        assert(seat_sound(t.seats[i]));
    }
}

/// With sound funds no seat's chips exceed the limit, nor do all commitments.
pub proof fn funds_within_limit(t: Table)
    requires
        funds_sound(t),
    ensures
        forall|i: int|
            0 <= i < t.seats.len() ==> (#[trigger] t.seats[i]).stack + t.seats[i].committed
                <= CHIP_LIMIT,
        0 <= model::total(model::commitments(t.seats)) <= CHIP_LIMIT,
{
    let ss = model::stacks(t.seats);
    let cs = model::commitments(t.seats);
    let n = t.seats.len() as int;
    assert forall|i: int| 0 <= i < n implies ss[i] >= 0 && cs[i] >= 0 by {
        assert(t.seats[i].stack >= 0);
    }
    model::total_bounds(ss, n);
    model::total_bounds(cs, n);
    assert(ss.take(n) =~= ss && cs.take(n) =~= cs);
    assert forall|i: int| 0 <= i < n implies (#[trigger] t.seats[i]).stack + t.seats[i].committed
        <= CHIP_LIMIT by {
        assert(ss[i] <= model::total(ss));
        assert(cs[i] <= model::total(cs));
    }
}

/// One stack and the whole pot together are within the limit.
pub proof fn stack_fits_with_pot(t: Table, seat: int)
    requires
        table_sound(t),
        0 <= seat < t.seats.len(),
    ensures
        0 <= t.seats[seat].stack + hand::pot_total(t) <= CHIP_LIMIT,
{
    amounts_within_limit(t);
    let ss = model::stacks(t.seats);
    assert forall|i: int| 0 <= i < ss.len() implies ss[i] >= 0 by {
        assert(seat_sound(t.seats[i]));
    }
    model::total_bounds(ss, ss.len() as int);
    assert(ss[seat] <= model::total(ss));
    assert(seat_sound(t.seats[seat]));
}

} // verus!
