//! Who wins what at showdown.

use vstd::prelude::*;

use crate::cards::HandEvaluator;
use crate::game::hand;
use crate::game::model;
use crate::game::model::{Seat, Table};
use crate::game::play;
use crate::game::pot_calc;
use crate::game::soundness;
use crate::game::state::PlayerStatus;

verus! {

/// A seat can win the pot of a level exactly if it contends for the level.
proof fn eligible_are_contenders(seats: Seq<Seat>, level: int, i: int)
    requires
        0 <= i < seats.len() <= usize::MAX,
    ensures
        pot_calc::seat_list(pot_calc::contenders(seats, level)).contains(i as usize)
            == pot_calc::contenders(seats, level)[i],
{
    let marks = pot_calc::contenders(seats, level);
    let list = pot_calc::seat_list(marks);
    model::count_bounds(marks);
    model::marked_in_order(marks);
    if marks[i] {
        let k = model::marked(marks).index_of(i);
        assert(list[k] == i as usize);
    }
    if list.contains(i as usize) {
        let k = list.index_of(i as usize);
        assert(list[k] == model::marked(marks)[k] as usize);
    }
}

/// Where `seat` can win, `other` can too.
spec fn in_company(pots: Seq<(u32, Seq<usize>)>, seat: int, other: int) -> bool {
    forall|p: int|
        0 <= p < pots.len() && (#[trigger] pots[p]).1.contains(seat as usize) ==> pots[p].1.contains(
            other as usize,
        )
}

proof fn company_above(
    seats: Seq<Seat>,
    prev: int,
    pots: Seq<(u32, Seq<usize>)>,
    seat: int,
    other: int,
)
    requires
        seats.len() <= usize::MAX,
        0 <= seat < seats.len(),
        0 <= other < seats.len(),
        seats[other].status != PlayerStatus::Folded,
        seats[other].committed >= seats[seat].committed,
        in_company(pots, seat, other),
    ensures
        in_company(pot_calc::pots_above(seats, prev, pots), seat, other),
    decreases pot_calc::highest_level(seats) - prev,
{
    pot_calc::next_level_bounds(seats, prev);
    if let Some(level) = pot_calc::next_level(seats, prev) {
        let eligible = pot_calc::seat_list(pot_calc::contenders(seats, level));
        let more = pot_calc::with_slice(pots, pot_calc::slice(seats, prev, level), eligible);
        eligible_are_contenders(seats, level, seat);
        eligible_are_contenders(seats, level, other);
        assert forall|p: int|
            0 <= p < more.len() && (#[trigger] more[p]).1.contains(
                seat as usize,
            ) implies more[p].1.contains(other as usize) by {
            if p < pots.len() {
                assert(more[p].1 == pots[p].1);
            }
        }
        company_above(seats, level, more, seat, other);
        assert(pot_calc::pots_above(seats, prev, pots) == pot_calc::pots_above(seats, level, more));
    } else {
        assert(pot_calc::pots_above(seats, prev, pots) == pots);
    }
}

proof fn beaten_in_every_pot<E: HandEvaluator>(
    e: E,
    t: Table,
    pots: Seq<(u32, Seq<usize>)>,
    n: int,
    seat: int,
    other: int,
)
    requires
        soundness::seating_sound(t),
        0 <= seat < t.seats.len(),
        0 <= other < t.seats.len(),
        hand::strength(e, t, other) > hand::strength(e, t, seat),
        0 <= n <= pots.len(),
        in_company(pots, seat, other),
        forall|p: int| 0 <= p < pots.len() ==> pot_calc::winnable(t.seats, #[trigger] pots[p]),
    ensures
        hand::with_pots_paid(e, t, pots, n).len() == t.seats.len(),
        hand::with_pots_paid(e, t, pots, n)[seat] == 0,
    decreases n,
{
    if n > 0 {
        beaten_in_every_pot(e, t, pots, n - 1, seat, other);
        let pot = pots[n - 1];
        let before = hand::with_pots_paid(e, t, pots, n - 1);
        assert(pot_calc::winnable(t.seats, pot));
        soundness::pots_are_paid_exactly(e, t, pots, n - 1);
        soundness::pot_is_paid_exactly(e, t, before, pot);
        if pot.1.len() == 1 {
            assert(pot.1[0] as int != seat) by {
                if pot.1[0] as int == seat {
                    assert(pot.1.contains(seat as usize));
                    assert(pot.1.contains(other as usize));
                }
            }
        } else {
            let winners = hand::winner_marks(e, t, pot.1);
            soundness::best_is_held(e, t, pot.1);
            assert(!winners[seat]) by {
                if pot.1.contains(seat as usize) {
                    let k = pot.1.index_of(other as usize);
                    assert(hand::strength(e, t, pot.1[k] as int) <= hand::best_strength(e, t, pot.1));
                }
            }
            soundness::next_marked_finds(winners, t.dealer as int);
        }
    }
}

/// The better hand wins: who is beaten by a player who committed as much and has not
/// folded is awarded nothing.
pub proof fn beaten_hands_win_nothing<E: HandEvaluator>(e: E, t: Table, seat: int, other: int)
    requires
        soundness::seating_sound(t),
        0 <= seat < t.seats.len(),
        0 <= other < t.seats.len(),
        t.seats[other].status != PlayerStatus::Folded,
        t.seats[other].committed >= t.seats[seat].committed,
        hand::strength(e, t, other) > hand::strength(e, t, seat),
    ensures
        hand::showdown(e, t)[seat] == 0,
{
    let pots = pot_calc::showdown_pots(t.seats);
    pot_calc::pots_are_winnable(t.seats);
    company_above(t.seats, 0, Seq::empty(), seat, other);
    beaten_in_every_pot(e, t, pots, pots.len() as int, seat, other);
}

/// The pot on top belongs to the one seat that committed more than all others.
proof fn top_pot(seats: Seq<Seat>, prev: int, pots: Seq<(u32, Seq<usize>)>, seat: int, cap: int)
    requires
        seats.len() <= usize::MAX,
        0 <= seat < seats.len(),
        0 <= prev <= cap < seats[seat].committed,
        seats[seat].status != PlayerStatus::Folded,
        forall|i: int| 0 <= i < seats.len() ==> (#[trigger] seats[i]).committed >= 0,
        forall|i: int|
            0 <= i < seats.len() && i != seat ==> (#[trigger] seats[i]).committed <= cap,
        model::total(model::commitments(seats)) <= u32::MAX,
    ensures
        ({
            let all = pot_calc::pots_above(seats, prev, pots);
            &&& all.len() > 0
            &&& all.last().1 =~= seq![seat as usize]
            &&& all.last().0 >= seats[seat].committed - cap
        }),
    decreases pot_calc::highest_level(seats) - prev,
{
    pot_calc::next_level_bounds(seats, prev);
    pot_calc::next_level_is_least(seats, prev);
    assert(seats[seat].committed > prev);
    let level = pot_calc::next_level(seats, prev)->0;
    let marks = pot_calc::contenders(seats, level);
    let eligible = pot_calc::seat_list(marks);
    let amount = pot_calc::slice(seats, prev, level);
    let more = pot_calc::with_slice(pots, amount, eligible);
    assert(pot_calc::pots_above(seats, prev, pots) == pot_calc::pots_above(seats, level, more));
    if level <= cap {
        top_pot(seats, level, more, seat, cap);
    } else {
        // Only the one seat reaches this level.
        let i = choose|i: int| 0 <= i < seats.len() && (#[trigger] seats[i]).committed == level;
        assert(i == seat);
        only_one_marked(pot_calc::contributors(seats, level), seat);
        only_one_marked(marks, seat);
        assert(amount == level - prev) by (nonlinear_arith)
            requires
                amount == (level - prev) * model::count(pot_calc::contributors(seats, level)),
                model::count(pot_calc::contributors(seats, level)) == 1,
        ;
        pot_calc::layer_step(seats, prev, level);
        pot_calc::layer_bounded(seats, prev);
        pot_calc::layer_bounded(seats, level);
        model::count_bounds(marks);
        assert(eligible =~= seq![seat as usize]) by {
            assert(model::marked(marks)[0] == seat);
        }
        pot_calc::next_level_is_least(seats, level);
        assert(pot_calc::next_level(seats, level) is None);
        assert(pot_calc::pots_above(seats, level, more) == more);
    }
}

/// One mark counts one.
proof fn only_one_marked(marks: Seq<bool>, seat: int)
    requires
        0 <= seat < marks.len(),
        marks[seat],
        forall|i: int| 0 <= i < marks.len() && i != seat ==> !#[trigger] marks[i],
    ensures
        model::count(marks) == 1,
{
    let none = marks.update(seat, false);
    model::count_update(marks, seat, false);
    soundness::none_marked_counts_zero(none);
}

/// Chips that nobody called come back: who committed more than all others is awarded
/// at least the difference.
pub proof fn uncalled_chips_return<E: HandEvaluator>(e: E, t: Table, seat: int, cap: int)
    requires
        soundness::seating_sound(t),
        soundness::funds_sound(t),
        0 <= seat < t.seats.len(),
        t.seats[seat].status != PlayerStatus::Folded,
        0 <= cap < t.seats[seat].committed,
        forall|i: int|
            0 <= i < t.seats.len() && i != seat ==> (#[trigger] t.seats[i]).committed <= cap,
    ensures
        hand::showdown(e, t)[seat] >= t.seats[seat].committed - cap,
{
    let pots = pot_calc::showdown_pots(t.seats);
    let n = pots.len() as int;
    soundness::funds_within_limit(t);
    top_pot(t.seats, 0, Seq::empty(), seat, cap);
    pot_calc::pots_are_winnable(t.seats);
    soundness::pots_are_paid_exactly(e, t, pots, n - 1);
    assert(hand::with_pots_paid(e, t, pots, n - 1)[seat] >= 0);
}

/// The chips in the first `n` pots that `seat` can win.
spec fn within_reach(pots: Seq<(u32, Seq<usize>)>, n: int, seat: int) -> int
    decreases n,
{
    if n <= 0 {
        0
    } else {
        within_reach(pots, n - 1, seat) + (if pots[n - 1].1.contains(seat as usize) {
            pots[n - 1].0 as int
        } else {
            0
        })
    }
}

/// Only the first `n` pots count.
proof fn reach_looks_back(
    a: Seq<(u32, Seq<usize>)>,
    b: Seq<(u32, Seq<usize>)>,
    n: int,
    seat: int,
)
    requires
        n <= a.len(),
        n <= b.len(),
        forall|p: int| 0 <= p < n ==> a[p] == b[p],
    ensures
        within_reach(a, n, seat) == within_reach(b, n, seat),
    decreases n,
{
    if n > 0 {
        reach_looks_back(a, b, n - 1, seat);
    }
}

/// Nobody is awarded more than lies within reach.
proof fn awards_stay_within_reach<E: HandEvaluator>(
    e: E,
    t: Table,
    pots: Seq<(u32, Seq<usize>)>,
    n: int,
    seat: int,
)
    requires
        soundness::seating_sound(t),
        0 <= seat < t.seats.len(),
        0 <= n <= pots.len(),
        forall|p: int| 0 <= p < pots.len() ==> pot_calc::winnable(t.seats, #[trigger] pots[p]),
    ensures
        hand::with_pots_paid(e, t, pots, n).len() == t.seats.len(),
        hand::with_pots_paid(e, t, pots, n)[seat] <= within_reach(pots, n, seat),
    decreases n,
{
    if n > 0 {
        awards_stay_within_reach(e, t, pots, n - 1, seat);
        let pot = pots[n - 1];
        let before = hand::with_pots_paid(e, t, pots, n - 1);
        assert(pot_calc::winnable(t.seats, pot));
        soundness::pots_are_paid_exactly(e, t, pots, n - 1);
        soundness::pot_is_paid_exactly(e, t, before, pot);
        if pot.1.len() == 1 {
            assert(pot.1.contains(pot.1[0]));
        } else {
            let winners = hand::winner_marks(e, t, pot.1);
            let amount = pot.0 as int;
            let k = model::count(winners);
            soundness::next_marked_finds(winners, t.dealer as int);
            vstd::arithmetic::div_mod::lemma_fundamental_div_mod(amount, k);
            vstd::arithmetic::div_mod::lemma_div_pos_is_pos(amount, k);
            vstd::arithmetic::div_mod::lemma_mod_bound(amount, k);
            assert(amount / k + amount % k <= amount) by (nonlinear_arith)
                requires
                    amount == k * (amount / k) + amount % k,
                    k >= 1,
                    amount / k >= 0,
            ;
        }
    }
}

/// Some player who has not folded committed more than `c`, but no more than `prev`.
spec fn deeper_hand(seats: Seq<Seat>, c: int, prev: int) -> bool {
    exists|k: int|
        0 <= k < seats.len() && c < (#[trigger] seats[k]).committed <= prev && seats[k].status
            != PlayerStatus::Folded
}

/// Folded chips that exceed what `seat` committed lie out of its reach.
spec fn no_loose_chips(seats: Seq<Seat>, seat: int) -> bool {
    ||| exists|k: int|
        0 <= k < seats.len() && (#[trigger] seats[k]).committed > seats[seat].committed
            && seats[k].status != PlayerStatus::Folded
    ||| forall|j: int|
        0 <= j < seats.len() && (#[trigger] seats[j]).status == PlayerStatus::Folded
            ==> seats[j].committed <= seats[seat].committed
}

proof fn reach_above(seats: Seq<Seat>, prev: int, pots: Seq<(u32, Seq<usize>)>, seat: int)
    requires
        seats.len() <= usize::MAX,
        0 <= seat < seats.len(),
        0 <= prev,
        seats[seat].status != PlayerStatus::Folded,
        no_loose_chips(seats, seat),
        forall|i: int| 0 <= i < seats.len() ==> (#[trigger] seats[i]).committed >= 0,
        model::total(model::commitments(seats)) <= u32::MAX,
        pot_calc::pots_total(pots) <= pot_calc::layer(seats, prev),
        within_reach(pots, pots.len() as int, seat) <= pot_calc::layer(
            seats,
            lower(prev, seats[seat].committed),
        ),
        deeper_hand(seats, seats[seat].committed, prev) ==> pots.len() > 0
            && !pots.last().1.contains(seat as usize),
    ensures
        ({
            let all = pot_calc::pots_above(seats, prev, pots);
            within_reach(all, all.len() as int, seat) <= pot_calc::layer(
                seats,
                seats[seat].committed,
            )
        }),
    decreases pot_calc::highest_level(seats) - prev,
{
    let c = seats[seat].committed;
    pot_calc::next_level_bounds(seats, prev);
    pot_calc::next_level_is_least(seats, prev);
    match pot_calc::next_level(seats, prev) {
        None => {
            assert(pot_calc::pots_above(seats, prev, pots) == pots);
            assert(c <= prev);
        },
        Some(level) => {
            let marks = pot_calc::contenders(seats, level);
            let eligible = pot_calc::seat_list(marks);
            let amount = pot_calc::slice(seats, prev, level);
            let more = pot_calc::with_slice(pots, amount, eligible);
            assert(pot_calc::pots_above(seats, prev, pots) == pot_calc::pots_above(
                seats,
                level,
                more,
            ));
            pot_calc::layer_step(seats, prev, level);
            pot_calc::layer_bounded(seats, prev);
            pot_calc::layer_bounded(seats, level);
            model::count_bounds(pot_calc::contributors(seats, level));
            assert(amount >= 0) by (nonlinear_arith)
                requires
                    amount == (level - prev) * model::count(pot_calc::contributors(seats, level)),
                    level > prev,
                    model::count(pot_calc::contributors(seats, level)) >= 0,
            ;
            model::side_total_grows(pots, pots.len() as int);
            assert(pots.take(pots.len() as int) =~= pots);
            pot_calc::with_slice_total(pots, amount, eligible);
            eligible_are_contenders(seats, level, seat);
            assert(c <= prev || c >= level);
            if eligible.len() > 0 {
                reach_looks_back(pots, more, pots.len() as int, seat);
                assert(more.last().1 == eligible);
                if deeper_hand(seats, c, level) && c >= level {
                    assert(false);
                }
            } else {
                // Nobody who is left contends for this level, so it lies above the seat.
                assert(c < level) by {
                    if c >= level {
                        assert(marks[seat]);
                        assert(eligible.contains(seat as usize));
                    }
                }
                let i = choose|i: int|
                    0 <= i < seats.len() && (#[trigger] seats[i]).committed == level;
                assert(seats[i].status == PlayerStatus::Folded) by {
                    if seats[i].status != PlayerStatus::Folded {
                        assert(marks[i]);
                        eligible_are_contenders(seats, level, i);
                    }
                }
                let k = choose|k: int|
                    0 <= k < seats.len() && (#[trigger] seats[k]).committed > c && seats[k].status
                        != PlayerStatus::Folded;
                assert(seats[k].committed <= prev) by {
                    if seats[k].committed >= level {
                        assert(marks[k]);
                        eligible_are_contenders(seats, level, k);
                    }
                }
                assert(deeper_hand(seats, c, prev));
                reach_looks_back(pots, more, pots.len() - 1, seat);
                assert(more.last().1 == pots.last().1);
            }
            reach_above(seats, level, more, seat);
        },
    }
}

spec fn lower(a: int, b: int) -> int {
    if a < b {
        a
    } else {
        b
    }
}

/// Nobody wins more from another player than they put in themselves: an award is at
/// most what all seats committed up to the winner's own commitment. (Chips that folded
/// hands committed beyond every other are won by whoever is left.)
pub proof fn winnings_are_capped<E: HandEvaluator>(e: E, t: Table, seat: int)
    requires
        soundness::seating_sound(t),
        soundness::funds_sound(t),
        0 <= seat < t.seats.len(),
        (exists|k: int|
            0 <= k < t.seats.len() && (#[trigger] t.seats[k]).committed > t.seats[seat].committed
                && t.seats[k].status != PlayerStatus::Folded) || (forall|j: int|
            0 <= j < t.seats.len() && (#[trigger] t.seats[j]).status == PlayerStatus::Folded
                ==> t.seats[j].committed <= t.seats[seat].committed),
    ensures
        hand::showdown(e, t)[seat] <= pot_calc::layer(t.seats, t.seats[seat].committed),
{
    let pots = pot_calc::showdown_pots(t.seats);
    soundness::funds_within_limit(t);
    pot_calc::pots_are_winnable(t.seats);
    pot_calc::layer_bounded(t.seats, t.seats[seat].committed);
    pot_calc::layer_bounded(t.seats, 0);
    awards_stay_within_reach(e, t, pots, pots.len() as int, seat);
    if t.seats[seat].status == PlayerStatus::Folded {
        folded_reach_nothing(t.seats, pots, pots.len() as int, seat);
    } else {
        reach_above(t.seats, 0, Seq::empty(), seat);
    }
}

proof fn folded_reach_nothing(
    seats: Seq<Seat>,
    pots: Seq<(u32, Seq<usize>)>,
    n: int,
    seat: int,
)
    requires
        0 <= seat < seats.len() <= usize::MAX,
        seats[seat].status == PlayerStatus::Folded,
        0 <= n <= pots.len(),
        forall|p: int| 0 <= p < pots.len() ==> pot_calc::winnable(seats, #[trigger] pots[p]),
    ensures
        within_reach(pots, n, seat) == 0,
    decreases n,
{
    if n > 0 {
        folded_reach_nothing(seats, pots, n - 1, seat);
        let pot = pots[n - 1];
        assert(pot_calc::winnable(seats, pot));
        if pot.1.contains(seat as usize) {
            let k = pot.1.index_of(seat as usize);
            assert(pot.1[k] as int == seat);
        }
    }
}

/// `seat` has a better hand than everybody else who committed chips and has not
/// folded.
pub open spec fn best_hand<E: HandEvaluator>(e: E, t: Table, seat: int) -> bool {
    &&& t.seats[seat].status != PlayerStatus::Folded
    &&& forall|i: int|
        0 <= i < t.seats.len() && i != seat && (#[trigger] t.seats[i]).committed > 0
            && t.seats[i].status != PlayerStatus::Folded ==> hand::strength(e, t, i)
            < hand::strength(e, t, seat)
}

/// The best hand takes every pot within its reach.
proof fn best_hand_takes_its_pots<E: HandEvaluator>(
    e: E,
    t: Table,
    pots: Seq<(u32, Seq<usize>)>,
    n: int,
    seat: int,
)
    requires
        soundness::seating_sound(t),
        0 <= seat < t.seats.len(),
        best_hand(e, t, seat),
        0 <= n <= pots.len(),
        forall|p: int| 0 <= p < pots.len() ==> pot_calc::winnable(t.seats, #[trigger] pots[p]),
    ensures
        hand::with_pots_paid(e, t, pots, n).len() == t.seats.len(),
        hand::with_pots_paid(e, t, pots, n)[seat] >= within_reach(pots, n, seat),
    decreases n,
{
    if n > 0 {
        best_hand_takes_its_pots(e, t, pots, n - 1, seat);
        let pot = pots[n - 1];
        let before = hand::with_pots_paid(e, t, pots, n - 1);
        assert(pot_calc::winnable(t.seats, pot));
        soundness::pots_are_paid_exactly(e, t, pots, n - 1);
        soundness::pot_is_paid_exactly(e, t, before, pot);
        let after = hand::with_pot_paid(e, t, before, pot);
        assert(before[seat] <= after[seat]);
        if pot.1.contains(seat as usize) {
            let k = pot.1.index_of(seat as usize);
            if pot.1.len() == 1 {
                assert(pot.1[0] as int == seat);
            } else {
                let winners = hand::winner_marks(e, t, pot.1);
                soundness::best_is_held(e, t, pot.1);
                let best = hand::best_strength(e, t, pot.1);
                assert(hand::strength(e, t, pot.1[k] as int) <= best);
                let w = choose|w: int|
                    0 <= w < pot.1.len() && hand::strength(e, t, #[trigger] pot.1[w] as int)
                        == best;
                assert(pot.1[w] as int == seat) by {
                    assert(t.seats[pot.1[w] as int].committed > 0);
                }
                assert forall|i: int|
                    0 <= i < winners.len() && i != seat implies !#[trigger] winners[i] by {
                    if winners[i] {
                        let j = pot.1.index_of(i as usize);
                        assert(t.seats[pot.1[j] as int].committed > 0);
                    }
                }
                only_one_marked(winners, seat);
                soundness::next_marked_finds(winners, t.dealer as int);
                let amount = pot.0 as int;
                assert(amount / 1 == amount && amount % 1 == 0);
                assert(hand::split_share(amount, winners, t.dealer as int, seat) == amount);
            }
        }
    }
}

/// What lies within reach of a live seat is at least all that was committed up to its
/// own commitment.
proof fn reach_is_no_less(seats: Seq<Seat>, prev: int, pots: Seq<(u32, Seq<usize>)>, seat: int)
    requires
        seats.len() <= usize::MAX,
        0 <= seat < seats.len(),
        0 <= prev,
        seats[seat].status != PlayerStatus::Folded,
        forall|i: int| 0 <= i < seats.len() ==> (#[trigger] seats[i]).committed >= 0,
        model::total(model::commitments(seats)) <= u32::MAX,
        pot_calc::pots_total(pots) <= pot_calc::layer(seats, prev),
        within_reach(pots, pots.len() as int, seat) >= pot_calc::layer(
            seats,
            lower(prev, seats[seat].committed),
        ),
    ensures
        ({
            let all = pot_calc::pots_above(seats, prev, pots);
            within_reach(all, all.len() as int, seat) >= pot_calc::layer(
                seats,
                seats[seat].committed,
            )
        }),
    decreases pot_calc::highest_level(seats) - prev,
{
    let c = seats[seat].committed;
    pot_calc::next_level_bounds(seats, prev);
    pot_calc::next_level_is_least(seats, prev);
    match pot_calc::next_level(seats, prev) {
        None => {
            assert(pot_calc::pots_above(seats, prev, pots) == pots);
            assert(c <= prev);
        },
        Some(level) => {
            let marks = pot_calc::contenders(seats, level);
            let eligible = pot_calc::seat_list(marks);
            let amount = pot_calc::slice(seats, prev, level);
            let more = pot_calc::with_slice(pots, amount, eligible);
            assert(pot_calc::pots_above(seats, prev, pots) == pot_calc::pots_above(
                seats,
                level,
                more,
            ));
            slice_fits(seats, prev, level, pots);
            pot_calc::with_slice_total(pots, amount, eligible);
            eligible_are_contenders(seats, level, seat);
            assert(c <= prev || c >= level);
            if eligible.len() > 0 {
                reach_looks_back(pots, more, pots.len() as int, seat);
            } else {
                assert(c < level) by {
                    if c >= level {
                        assert(marks[seat]);
                        assert(eligible.contains(seat as usize));
                    }
                }
                if pots.len() > 0 {
                    reach_looks_back(pots, more, pots.len() - 1, seat);
                    assert(more.last().1 == pots.last().1);
                    last_pot_within(pots);
                }
            }
            reach_is_no_less(seats, level, more, seat);
        },
    }
}

/// The slice up to the next level is not empty, and fits on top of what lies below.
proof fn slice_fits(seats: Seq<Seat>, prev: int, level: int, pots: Seq<(u32, Seq<usize>)>)
    requires
        0 <= prev,
        pot_calc::next_level(seats, prev) == Some(level),
        forall|i: int| 0 <= i < seats.len() ==> (#[trigger] seats[i]).committed >= 0,
        model::total(model::commitments(seats)) <= u32::MAX,
        pot_calc::pots_total(pots) <= pot_calc::layer(seats, prev),
    ensures
        0 < pot_calc::slice(seats, prev, level) <= u32::MAX,
        pot_calc::pots_total(pots) + pot_calc::slice(seats, prev, level) <= pot_calc::layer(
            seats,
            level,
        ) <= u32::MAX,
        0 <= pot_calc::pots_total(pots),
        pot_calc::slice(seats, prev, level) == pot_calc::layer(seats, level) - pot_calc::layer(
            seats,
            prev,
        ),
{
    pot_calc::next_level_bounds(seats, prev);
    pot_calc::next_level_is_least(seats, prev);
    pot_calc::layer_step(seats, prev, level);
    pot_calc::layer_bounded(seats, prev);
    pot_calc::layer_bounded(seats, level);
    let marks = pot_calc::contributors(seats, level);
    let i = choose|i: int| 0 <= i < seats.len() && (#[trigger] seats[i]).committed == level;
    assert(marks[i]);
    model::count_bounds(marks);
    let amount = pot_calc::slice(seats, prev, level);
    assert(amount > 0) by (nonlinear_arith)
        requires
            amount == (level - prev) * model::count(marks),
            level > prev,
            model::count(marks) >= 1,
    ;
    model::side_total_grows(pots, pots.len() as int);
    assert(pots.take(pots.len() as int) =~= pots);
}

/// The last pot holds no more than all pots.
proof fn last_pot_within(pots: Seq<(u32, Seq<usize>)>)
    requires
        pots.len() > 0,
    ensures
        pots.last().0 <= pot_calc::pots_total(pots),
{
    model::side_total_grows(pots, pots.len() - 1);
    assert(pots.take(pots.len() - 1) =~= pots.drop_last());
}

/// The best hand wins: it is awarded at least what every seat committed, up to its own
/// commitment.
pub proof fn best_hand_wins<E: HandEvaluator>(e: E, t: Table, seat: int)
    requires
        soundness::seating_sound(t),
        soundness::funds_sound(t),
        0 <= seat < t.seats.len(),
        best_hand(e, t, seat),
    ensures
        hand::showdown(e, t)[seat] >= pot_calc::layer(t.seats, t.seats[seat].committed),
{
    let pots = pot_calc::showdown_pots(t.seats);
    soundness::funds_within_limit(t);
    pot_calc::pots_are_winnable(t.seats);
    pot_calc::layer_bounded(t.seats, 0);
    best_hand_takes_its_pots(e, t, pots, pots.len() as int, seat);
    assert(lower(0, t.seats[seat].committed) == 0);
    reach_is_no_less(t.seats, 0, Seq::empty(), seat);
}

/// Pots lie one on top of the other: none is empty, and who can win a pot can win
/// every pot below it.
pub open spec fn stacked(pots: Seq<(u32, Seq<usize>)>) -> bool {
    &&& forall|p: int| 0 <= p < pots.len() ==> (#[trigger] pots[p]).0 > 0
    &&& forall|p: int, q: int, i: usize|
        0 <= p <= q < pots.len() && #[trigger] pots[q].1.contains(i) ==> #[trigger] pots[p].1.contains(
            i,
        )
}

/// Who committed more than `prev` and has not folded can win every one of `pots`.
spec fn open_to_more(seats: Seq<Seat>, prev: int, pots: Seq<(u32, Seq<usize>)>) -> bool {
    forall|p: int, i: int|
        0 <= p < pots.len() && 0 <= i < seats.len() && seats[i].committed > prev
            && seats[i].status != PlayerStatus::Folded ==> #[trigger] pots[p].1.contains(i as usize)
}

proof fn pots_above_stacked(seats: Seq<Seat>, prev: int, pots: Seq<(u32, Seq<usize>)>)
    requires
        seats.len() <= usize::MAX,
        0 <= prev,
        forall|i: int| 0 <= i < seats.len() ==> (#[trigger] seats[i]).committed >= 0,
        model::total(model::commitments(seats)) <= u32::MAX,
        pot_calc::pots_total(pots) <= pot_calc::layer(seats, prev),
        stacked(pots),
        open_to_more(seats, prev, pots),
    ensures
        stacked(pot_calc::pots_above(seats, prev, pots)),
    decreases pot_calc::highest_level(seats) - prev,
{
    pot_calc::next_level_bounds(seats, prev);
    if let Some(level) = pot_calc::next_level(seats, prev) {
        let marks = pot_calc::contenders(seats, level);
        let eligible = pot_calc::seat_list(marks);
        let amount = pot_calc::slice(seats, prev, level);
        let more = pot_calc::with_slice(pots, amount, eligible);
        assert(pot_calc::pots_above(seats, prev, pots) == pot_calc::pots_above(seats, level, more));
        slice_fits(seats, prev, level, pots);
        pot_calc::with_slice_total(pots, amount, eligible);
        model::count_bounds(marks);
        if pots.len() > 0 {
            last_pot_within(pots);
        }
        assert forall|p: int| 0 <= p < more.len() implies (#[trigger] more[p]).0 > 0 by {
            if p < pots.len() {
                assert(pots[p].0 > 0);
            }
        }
        assert forall|p: int, q: int, i: usize|
            0 <= p <= q < more.len() && #[trigger] more[q].1.contains(i) implies #[trigger] more[p].1.contains(
            i,
        ) by {
            if q < pots.len() {
                assert(pots[q].1.contains(i));
                assert(pots[p].1.contains(i));
            } else if p < pots.len() {
                let k = eligible.index_of(i);
                let m = model::marked(marks)[k];
                assert(marks[m] && i == m as usize);
                assert(pots[p].1.contains(m as usize));
            }
        }
        assert forall|p: int, i: int|
            0 <= p < more.len() && 0 <= i < seats.len() && seats[i].committed > level
                && seats[i].status != PlayerStatus::Folded implies #[trigger] more[p].1.contains(
            i as usize,
        ) by {
            if p < pots.len() {
                assert(pots[p].1.contains(i as usize));
            } else {
                eligible_are_contenders(seats, level, i);
            }
        }
        pots_above_stacked(seats, level, more);
    } else {
        assert(pot_calc::pots_above(seats, prev, pots) == pots);
    }
}

/// The pots of a showdown lie one on top of the other.
pub proof fn pots_are_stacked(seats: Seq<Seat>)
    requires
        seats.len() <= usize::MAX,
        forall|i: int| 0 <= i < seats.len() ==> (#[trigger] seats[i]).committed >= 0,
        model::total(model::commitments(seats)) <= u32::MAX,
    ensures
        stacked(pot_calc::showdown_pots(seats)),
{
    pot_calc::layer_bounded(seats, 0);
    pots_above_stacked(seats, 0, Seq::empty());
}

// ---------------------------------------------------------------------------
// Ties
// ---------------------------------------------------------------------------

/// A pot that several win is split evenly: nobody else gets anything, each winner gets the
/// same whole number of chips, and the odd chips, fewer than there are winners, go to the
/// winner nearest to the left of the dealer.
pub proof fn pots_split_evenly(amount: int, winners: Seq<bool>, dealer: int, i: int, m: int)
    requires
        0 <= amount,
        0 <= dealer,
        0 <= i < winners.len(),
        play::nearest(winners, dealer, m),
    ensures
        ({
            let k = model::count(winners);
            let first = (dealer + m) % (winners.len() as int);
            let share = hand::split_share(amount, winners, dealer, i);
            let odd = hand::split_share(amount, winners, dealer, first);
            &&& !winners[i] ==> share == 0
            &&& winners[i] && i != first ==> k * share <= amount < k * share + k && odd
                == amount - (k - 1) * share
            &&& 0 <= odd - share || !winners[i]
        }),
{
    let k = model::count(winners);
    let n = winners.len() as int;
    let first = (dealer + m) % n;
    vstd::arithmetic::div_mod::lemma_mod_bound(dealer + m, n);
    soundness::none_marked_counts_zero(winners);
    model::count_bounds(winners);
    assert(winners[first]);
    play::search_finds_the_nearest(winners, dealer);
    vstd::arithmetic::div_mod::lemma_fundamental_div_mod(amount, k);
    vstd::arithmetic::div_mod::lemma_mod_bound(amount, k);
    vstd::arithmetic::div_mod::lemma_div_pos_is_pos(amount, k);
    let q = amount / k;
    assert((k - 1) * q == k * q - q) by (nonlinear_arith);
    if winners[i] && i != first {
        assert(hand::split_share(amount, winners, dealer, i) == q);
    }
}

proof fn tied_in_every_pot<E: HandEvaluator>(
    e: E,
    t: Table,
    pots: Seq<(u32, Seq<usize>)>,
    n: int,
    i: int,
    j: int,
)
    requires
        soundness::seating_sound(t),
        0 <= i < t.seats.len(),
        0 <= j < t.seats.len(),
        i != j,
        hand::strength(e, t, i) == hand::strength(e, t, j),
        0 <= n <= pots.len(),
        in_company(pots, i, j),
        in_company(pots, j, i),
        forall|p: int| 0 <= p < pots.len() ==> pot_calc::winnable(t.seats, #[trigger] pots[p]),
    ensures
        hand::with_pots_paid(e, t, pots, n).len() == t.seats.len(),
        hand::with_pots_paid(e, t, pots, n)[i] - hand::with_pots_paid(e, t, pots, n)[j] <= n * (
        t.seats.len() - 1),
        hand::with_pots_paid(e, t, pots, n)[j] - hand::with_pots_paid(e, t, pots, n)[i] <= n * (
        t.seats.len() - 1),
    decreases n,
{
    let seats = t.seats.len() as int;
    assert(n * (seats - 1) == (n - 1) * (seats - 1) + (seats - 1)) by (nonlinear_arith);
    if n > 0 {
        tied_in_every_pot(e, t, pots, n - 1, i, j);
        let pot = pots[n - 1];
        let before = hand::with_pots_paid(e, t, pots, n - 1);
        assert(pot_calc::winnable(t.seats, pot));
        soundness::pots_are_paid_exactly(e, t, pots, n - 1);
        soundness::pot_is_paid_exactly(e, t, before, pot);
        if pot.1.len() == 1 {
            assert(!pot.1.contains(i as usize) && !pot.1.contains(j as usize)) by {
                if pot.1.contains(i as usize) || pot.1.contains(j as usize) {
                    assert(pot.1.contains(i as usize) && pot.1.contains(j as usize));
                    let a = pot.1.index_of(i as usize);
                    let b = pot.1.index_of(j as usize);
                    assert(a == 0 && b == 0);
                }
            }
            assert(pot.1.contains(pot.1[0]));
        } else {
            let winners = hand::winner_marks(e, t, pot.1);
            assert(winners[i] == winners[j]);
            soundness::next_marked_finds(winners, t.dealer as int);
            let k = model::count(winners);
            model::count_bounds(winners);
            if winners[i] {
                soundness::none_marked_counts_zero(winners);
                vstd::arithmetic::div_mod::lemma_mod_bound(pot.0 as int, k);
            }
        }
    }
}

/// Hands that tie share: two players with equal hands who committed as much are awarded the
/// same, but for odd chips of which each pot has fewer than there are seats.
pub proof fn equal_hands_share<E: HandEvaluator>(e: E, t: Table, i: int, j: int)
    requires
        soundness::seating_sound(t),
        0 <= i < t.seats.len(),
        0 <= j < t.seats.len(),
        i != j,
        t.seats[i].status != PlayerStatus::Folded,
        t.seats[j].status != PlayerStatus::Folded,
        t.seats[i].committed == t.seats[j].committed,
        hand::strength(e, t, i) == hand::strength(e, t, j),
    ensures
        ({
            let odd = pot_calc::showdown_pots(t.seats).len() * (t.seats.len() - 1);
            -odd <= hand::showdown(e, t)[i] - hand::showdown(e, t)[j] <= odd
        }),
{
    let pots = pot_calc::showdown_pots(t.seats);
    pot_calc::pots_are_winnable(t.seats);
    company_above(t.seats, 0, Seq::empty(), i, j);
    company_above(t.seats, 0, Seq::empty(), j, i);
    tied_in_every_pot(e, t, pots, pots.len() as int, i, j);
}

/// At a showdown the river is out, and each player still in is judged by its own two cards
/// and all five board cards.
pub proof fn hands_are_judged_by_seven_cards<E: HandEvaluator>(e: E, t: Table, i: int)
    requires
        0 <= i < t.seats.len(),
        t.seats[i].hole is Some,
        t.board.len() == 5,
    ensures
        hand::strength(e, t, i) == e.strength(
            seq![
                (t.seats[i].hole->0).0,
                (t.seats[i].hole->0).1,
                t.board[0],
                t.board[1],
                t.board[2],
                t.board[3],
                t.board[4],
            ],
        ),
{
    assert(hand::seven(t, i) =~= seq![
        (t.seats[i].hole->0).0,
        (t.seats[i].hole->0).1,
        t.board[0],
        t.board[1],
        t.board[2],
        t.board[3],
        t.board[4],
    ]);
}

} // verus!
