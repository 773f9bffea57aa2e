use vstd::prelude::*;

use crate::game::lists::{PotList, SeatList};
use crate::game::model;
use crate::game::model::Seat;
use crate::game::state;
use crate::game::state::{PlayerState, PlayerStatus, Pot};

verus! {

/// Move each player's `bet_this_street` into the pot and reset it to 0.
/// `total_committed` is not changed here: it accumulates over the whole hand and
/// is used for side-pot calculation at showdown.
pub fn collect_street_bets(players: &mut Vec<PlayerState>, pot: &mut Pot)
    requires
        old(pot).main + model::total(model::bets(state::seats_of(old(players)@))) <= u32::MAX,
    ensures
        state::seats_of(final(players)@) == model::cleared(state::seats_of(old(players)@)),
        final(pot).main == old(pot).main + model::total(model::bets(state::seats_of(old(players)@))),
        final(pot).side == old(pot).side,
{
    let ghost all = model::bets(state::seats_of(players@));
    let mut street_total: u32 = 0;
    let mut i: usize = 0;
    assert(all.take(0) =~= Seq::<int>::empty());
    while i < players.len()
        invariant
            i <= players@.len(),
            players@ == old(players)@,
            all == model::bets(state::seats_of(players@)),
            street_total == model::total(all.take(i as int)),
            model::total(all) <= u32::MAX,
        decreases players@.len() - i,
    {
        proof {
            assert(all.take(i + 1).drop_last() =~= all.take(i as int));
            model::total_bounds(all, i + 1);
        }
        street_total = street_total + players[i].bet_this_street;
        i = i + 1;
    }
    assert(all.take(i as int) =~= all);
    pot.main = pot.main + street_total;
    let mut k: usize = 0;
    while k < players.len()
        invariant
            k <= players@.len() == old(players)@.len(),
            forall|m: int|
                0 <= m < k ==> (#[trigger] players@[m])@ == (Seat { bet: 0, ..old(players)@[m]@ }),
            forall|m: int| k <= m < players@.len() ==> players@[m] == old(players)@[m],
        decreases players@.len() - k,
    {
        players[k].bet_this_street = 0;
        k = k + 1;
    }
    assert(state::seats_of(players@) =~= model::cleared(state::seats_of(old(players)@)));
}


// ---------------------------------------------------------------------------
// Showdown pots
// ---------------------------------------------------------------------------

/// The smallest commitment above `prev`.
pub open spec fn next_level(seats: Seq<Seat>, prev: int) -> Option<int>
    decreases seats.len(),
{
    if seats.len() == 0 {
        None
    } else {
        let c = seats.last().committed;
        match next_level(seats.drop_last(), prev) {
            None => if c > prev {
                Some(c)
            } else {
                None
            },
            Some(l) => if prev < c < l {
                Some(c)
            } else {
                Some(l)
            },
        }
    }
}

/// The largest commitment.
pub open spec fn highest_level(seats: Seq<Seat>) -> int
    decreases seats.len(),
{
    if seats.len() == 0 {
        0
    } else {
        let h = highest_level(seats.drop_last());
        if seats.last().committed > h {
            seats.last().committed
        } else {
            h
        }
    }
}

/// The seats, folded or not, that committed at least `level`.
pub open spec fn contributors(seats: Seq<Seat>, level: int) -> Seq<bool> {
    Seq::new(seats.len(), |i: int| seats[i].committed >= level)
}

/// The seats that committed at least `level` and have not folded.
pub open spec fn contenders(seats: Seq<Seat>, level: int) -> Seq<bool> {
    Seq::new(
        seats.len(),
        |i: int| seats[i].committed >= level && seats[i].status != PlayerStatus::Folded,
    )
}

/// The marked positions as seat indices.
pub open spec fn seat_list(marks: Seq<bool>) -> Seq<usize> {
    model::marked(marks).map_values(|i: int| i as usize)
}

/// The chips that lie between the levels `prev` and `level`.
pub open spec fn slice(seats: Seq<Seat>, prev: int, level: int) -> int {
    (level - prev) * model::count(contributors(seats, level))
}

/// `pots` and one more slice: a pot of its own where somebody can win it, else part
/// of the last pot, else left out.
pub open spec fn with_slice(
    pots: Seq<(u32, Seq<usize>)>,
    amount: int,
    eligible: Seq<usize>,
) -> Seq<(u32, Seq<usize>)> {
    if eligible.len() > 0 {
        pots.push((amount as u32, eligible))
    } else if pots.len() > 0 {
        pots.update(pots.len() - 1, ((pots.last().0 + amount) as u32, pots.last().1))
    } else {
        pots
    }
}

/// `pots`, which hold the chips up to the level `prev`, and the slices above it.
pub open spec fn pots_above(
    seats: Seq<Seat>,
    prev: int,
    pots: Seq<(u32, Seq<usize>)>,
) -> Seq<(u32, Seq<usize>)>
    decreases highest_level(seats) - prev,
{
    match next_level(seats, prev) {
        None => pots,
        Some(level) => {
            proof {
                next_level_bounds(seats, prev);
            }
            pots_above(
                seats,
                level,
                with_slice(
                    pots,
                    slice(seats, prev, level),
                    seat_list(contenders(seats, level)),
                ),
            )
        },
    }
}

/// The pots of a showdown, from the smallest commitment level upward.
pub open spec fn showdown_pots(seats: Seq<Seat>) -> Seq<(u32, Seq<usize>)> {
    pots_above(seats, 0, Seq::empty())
}

/// The chips in all pots.
pub open spec fn pots_total(pots: Seq<(u32, Seq<usize>)>) -> int {
    model::side_total(pots)
}

/// What the seats committed up to `cap` each, together.
pub open spec fn layer(seats: Seq<Seat>, cap: int) -> int
    decreases seats.len(),
{
    if seats.len() == 0 {
        0
    } else {
        layer(seats.drop_last(), cap) + (if seats.last().committed < cap {
            seats.last().committed
        } else {
            cap
        })
    }
}

/// The next level lies above `prev` and is one of the commitments.
pub proof fn next_level_bounds(seats: Seq<Seat>, prev: int)
    ensures
        next_level(seats, prev) matches Some(l) ==> prev < l <= highest_level(seats),
    decreases seats.len(),
{
    if seats.len() > 0 {
        next_level_bounds(seats.drop_last(), prev);
    }
}

/// The next level is a commitment above `prev`, and none lies between.
pub proof fn next_level_is_least(seats: Seq<Seat>, prev: int)
    ensures
        next_level(seats, prev) matches Some(l) ==> {
            &&& prev < l
            &&& exists|i: int| 0 <= i < seats.len() && (#[trigger] seats[i]).committed == l
            &&& forall|i: int|
                0 <= i < seats.len() ==> (#[trigger] seats[i]).committed <= prev
                    || seats[i].committed >= l
        },
        next_level(seats, prev) is None ==> forall|i: int|
            0 <= i < seats.len() ==> (#[trigger] seats[i]).committed <= prev,
    decreases seats.len(),
{
    if seats.len() > 0 {
        let head = seats.drop_last();
        next_level_is_least(head, prev);
        match next_level(seats, prev) {
            Some(l) => {
                assert forall|i: int| 0 <= i < seats.len() implies (#[trigger] seats[i]).committed
                    <= prev || seats[i].committed >= l by {
                    if i < seats.len() - 1 {
                        assert(head[i] == seats[i]);
                    }
                }
                if seats.last().committed == l {
                    assert(seats[seats.len() - 1].committed == l);
                } else {
                    let k = choose|k: int| 0 <= k < head.len() && (#[trigger] head[k]).committed == l;
                    assert(seats[k].committed == l);
                }
            },
            None => {
                assert forall|i: int| 0 <= i < seats.len() implies (#[trigger] seats[i]).committed
                    <= prev by {
                    if i < seats.len() - 1 {
                        assert(head[i] == seats[i]);
                    }
                }
            },
        }
    }
}

/// Between two levels with no commitment in between lie as many chips as the slice
/// says.
pub proof fn layer_step(seats: Seq<Seat>, prev: int, level: int)
    requires
        prev < level,
        forall|i: int|
            0 <= i < seats.len() ==> (#[trigger] seats[i]).committed <= prev
                || seats[i].committed >= level,
    ensures
        layer(seats, level) - layer(seats, prev) == slice(seats, prev, level),
    decreases seats.len(),
{
    let k = model::count(contributors(seats, level));
    if seats.len() > 0 {
        let head = seats.drop_last();
        assert forall|i: int| 0 <= i < head.len() implies (#[trigger] head[i]).committed <= prev
            || head[i].committed >= level by {
            assert(head[i] == seats[i]);
        }
        layer_step(head, prev, level);
        assert(contributors(seats, level).drop_last() =~= contributors(head, level));
        let h = model::count(contributors(head, level));
        assert((level - prev) * (h + 1) == (level - prev) * h + (level - prev))
            by (nonlinear_arith);
        assert(seats.last() == seats[seats.len() - 1]);
    }
}

/// Up to a cap that nobody exceeds, the layer is all that was committed.
proof fn layer_of_all(seats: Seq<Seat>, cap: int)
    requires
        forall|i: int| 0 <= i < seats.len() ==> (#[trigger] seats[i]).committed <= cap,
    ensures
        layer(seats, cap) == model::total(model::commitments(seats)),
    decreases seats.len(),
{
    if seats.len() > 0 {
        let head = seats.drop_last();
        assert forall|i: int| 0 <= i < head.len() implies (#[trigger] head[i]).committed <= cap by {
            assert(head[i] == seats[i]);
        }
        layer_of_all(head, cap);
        assert(model::commitments(seats).drop_last() =~= model::commitments(head));
        assert(seats.last() == seats[seats.len() - 1]);
    }
}

/// A layer holds at most all that was committed, and no less than nothing.
pub proof fn layer_bounded(seats: Seq<Seat>, cap: int)
    requires
        cap >= 0,
        forall|i: int| 0 <= i < seats.len() ==> (#[trigger] seats[i]).committed >= 0,
    ensures
        0 <= layer(seats, cap) <= model::total(model::commitments(seats)),
        cap == 0 ==> layer(seats, cap) == 0,
    decreases seats.len(),
{
    if seats.len() > 0 {
        let head = seats.drop_last();
        assert forall|i: int| 0 <= i < head.len() implies (#[trigger] head[i]).committed >= 0 by {
            assert(head[i] == seats[i]);
        }
        layer_bounded(head, cap);
        assert(model::commitments(seats).drop_last() =~= model::commitments(head));
        assert(seats.last() == seats[seats.len() - 1]);
    }
}

/// Adding a slice adds its chips, where it finds a place.
pub proof fn with_slice_total(pots: Seq<(u32, Seq<usize>)>, amount: int, eligible: Seq<usize>)
    requires
        amount >= 0,
        pots_total(pots) + amount <= u32::MAX,
    ensures
        pots_total(with_slice(pots, amount, eligible)) == pots_total(pots) + (if eligible.len() > 0
            || pots.len() > 0 {
            amount
        } else {
            0
        }),
{
    model::side_total_grows(pots, pots.len() as int);
    assert(pots.take(pots.len() as int) =~= pots);
    if eligible.len() > 0 {
        assert(with_slice(pots, amount, eligible).drop_last() =~= pots);
    } else if pots.len() > 0 {
        model::side_total_grows(pots, pots.len() - 1);
        assert(pots.take(pots.len() - 1) =~= pots.drop_last());
        assert(with_slice(pots, amount, eligible).drop_last() =~= pots.drop_last());
    }
}

/// Build the ordered list of pots for showdown distribution: amount and eligible
/// seats, from the smallest commitment level upward.
///
/// Eligible are the players who have not folded and committed at least that level.
/// Dead money from folded players adds to the amounts but not to eligibility. What
/// one player committed beyond everybody else comes back as a pot with that one
/// eligible seat. A level without a live hand joins the pot below it.
pub fn build_showdown_pots(players: &Vec<PlayerState>) -> (pots: PotList)
    requires
        model::total(model::commitments(state::seats_of(players@))) <= u32::MAX,
    ensures
        pots@ == showdown_pots(state::seats_of(players@)),
{
    let ghost seats = state::seats_of(players@);
    let mut result = PotList::new();
    let mut prev: u32 = 0;
    let mut level: Option<u32> = lowest_above(players, prev);
    proof {
        layer_bounded(seats, 0);
    }
    while level.is_some()
        invariant
            seats == state::seats_of(players@),
            model::total(model::commitments(seats)) <= u32::MAX,
            showdown_pots(seats) == pots_above(seats, prev as int, result@),
            pots_total(result@) <= layer(seats, prev as int),
            next_level(seats, prev as int) == (match level {
                Some(l) => Some(l as int),
                None => None,
            }),
        decreases highest_level(seats) - prev,
    {
        if let Some(l) = level {
            proof {
                next_level_bounds(seats, prev as int);
                next_level_is_least(seats, prev as int);
                layer_step(seats, prev as int, l as int);
                layer_bounded(seats, l as int);
                layer_bounded(seats, prev as int);
                model::side_total_grows(result@, result@.len() as int);
                assert(result@.take(result@.len() as int) =~= result@);
            }
            let n_contributors: u32 = count_contributors(players, l);
            assert(slice(seats, prev as int, l as int) <= u32::MAX);
            let pot_slice: u32 = (l - prev) * n_contributors;
            let eligible = eligible_seats(players, l);
            proof {
                with_slice_total(result@, pot_slice as int, eligible@);
            }
            if eligible.len() == 0 {
                let n: usize = result.len();
                if n > 0 {
                    let last: u32 = result.get(n - 1).0;
                    proof {
                        model::side_total_grows(result@, n - 1);
                        assert(result@.take(n - 1) =~= result@.drop_last());
                    }
                    result.set_amount(n - 1, last + pot_slice);
                }
            } else {
                result.push(pot_slice, eligible);
            }
            prev = l;
            level = lowest_above(players, prev);
        }
    }
    result
}

fn lowest_above(players: &Vec<PlayerState>, prev: u32) -> (level: Option<u32>)
    ensures
        next_level(state::seats_of(players@), prev as int) == (match level {
            Some(l) => Some(l as int),
            None => None,
        }),
{
    let ghost seats = state::seats_of(players@);
    let mut level: Option<u32> = None;
    let mut i: usize = 0;
    while i < players.len()
        invariant
            i <= players@.len(),
            seats == state::seats_of(players@),
            next_level(seats.take(i as int), prev as int) == (match level {
                Some(l) => Some(l as int),
                None => None,
            }),
        decreases players@.len() - i,
    {
        assert(seats.take(i + 1).drop_last() =~= seats.take(i as int));
        let c: u32 = players[i].total_committed;
        match level {
            None => {
                if c > prev {
                    level = Some(c);
                }
            },
            Some(l) => {
                if c > prev && c < l {
                    level = Some(c);
                }
            },
        }
        i = i + 1;
    }
    assert(seats.take(i as int) =~= seats);
    level
}

fn count_contributors(players: &Vec<PlayerState>, level: u32) -> (n: u32)
    requires
        level > 0,
        model::total(model::commitments(state::seats_of(players@))) <= u32::MAX,
    ensures
        n == model::count(contributors(state::seats_of(players@), level as int)),
{
    let ghost marks = contributors(state::seats_of(players@), level as int);
    let ghost all = model::commitments(state::seats_of(players@));
    let mut n: u32 = 0;
    let mut i: usize = 0;
    while i < players.len()
        invariant
            i <= players@.len(),
            level > 0,
            marks == contributors(state::seats_of(players@), level as int),
            all == model::commitments(state::seats_of(players@)),
            model::total(all) <= u32::MAX,
            n == model::count(marks.take(i as int)),
            n <= model::total(all.take(i as int)),
        decreases players@.len() - i,
    {
        proof {
            assert(marks.take(i + 1).drop_last() =~= marks.take(i as int));
            assert(all.take(i + 1).drop_last() =~= all.take(i as int));
            model::total_bounds(all, i + 1);
        }
        if players[i].total_committed >= level {
            n = n + 1;
        }
        i = i + 1;
    }
    assert(marks.take(i as int) =~= marks);
    n
}

fn eligible_seats(players: &Vec<PlayerState>, level: u32) -> (list: SeatList)
    ensures
        list@ == seat_list(contenders(state::seats_of(players@), level as int)),
{
    let ghost marks = contenders(state::seats_of(players@), level as int);
    let mut list = SeatList::new();
    let mut i: usize = 0;
    assert(list@ =~= seat_list(marks.take(0)));
    while i < players.len()
        invariant
            i <= players@.len(),
            marks == contenders(state::seats_of(players@), level as int),
            list@ == seat_list(marks.take(i as int)),
        decreases players@.len() - i,
    {
        assert(marks.take(i + 1).drop_last() =~= marks.take(i as int));
        if players[i].total_committed >= level && players[i].status != PlayerStatus::Folded {
            list.push(i);
            assert(list@ =~= seat_list(marks.take(i + 1)));
        }
        i = i + 1;
    }
    assert(marks.take(i as int) =~= marks);
    list
}

// ---------------------------------------------------------------------------
// Laws
// ---------------------------------------------------------------------------

proof fn pots_above_total(seats: Seq<Seat>, prev: int, pots: Seq<(u32, Seq<usize>)>)
    requires
        prev >= 0,
        forall|i: int| 0 <= i < seats.len() ==> (#[trigger] seats[i]).committed >= 0,
        model::total(model::commitments(seats)) <= u32::MAX,
        pots_total(pots) == layer(seats, prev),
        pots.len() > 0 || (prev == 0 && exists|i: int|
            0 <= i < seats.len() && (#[trigger] seats[i]).committed > 0 && seats[i].status
                != PlayerStatus::Folded),
    ensures
        pots_total(pots_above(seats, prev, pots)) == model::total(model::commitments(seats)),
    decreases highest_level(seats) - prev,
{
    next_level_is_least(seats, prev);
    next_level_bounds(seats, prev);
    match next_level(seats, prev) {
        None => {
            layer_of_all(seats, prev);
        },
        Some(level) => {
            let amount = slice(seats, prev, level);
            let eligible = seat_list(contenders(seats, level));
            layer_step(seats, prev, level);
            layer_bounded(seats, level);
            layer_bounded(seats, prev);
            model::count_bounds(contributors(seats, level));
            assert(amount >= 0) by (nonlinear_arith)
                requires
                    amount == (level - prev) * model::count(contributors(seats, level)),
                    level > prev,
                    model::count(contributors(seats, level)) >= 0,
            ;
            with_slice_total(pots, amount, eligible);
            if pots.len() == 0 {
                let i = choose|i: int|
                    0 <= i < seats.len() && (#[trigger] seats[i]).committed > 0 && seats[i].status
                        != PlayerStatus::Folded;
                assert(contenders(seats, level)[i]);
                model::count_bounds(contenders(seats, level));
                assert(eligible.len() > 0);
            }
            pots_above_total(seats, level, with_slice(pots, amount, eligible));
        },
    }
}

proof fn pots_above_bounded(seats: Seq<Seat>, prev: int, pots: Seq<(u32, Seq<usize>)>)
    requires
        prev >= 0,
        forall|i: int| 0 <= i < seats.len() ==> (#[trigger] seats[i]).committed >= 0,
        model::total(model::commitments(seats)) <= u32::MAX,
        pots_total(pots) <= layer(seats, prev),
    ensures
        pots_total(pots_above(seats, prev, pots)) <= model::total(model::commitments(seats)),
    decreases highest_level(seats) - prev,
{
    next_level_is_least(seats, prev);
    next_level_bounds(seats, prev);
    layer_bounded(seats, prev);
    if let Some(level) = next_level(seats, prev) {
        let amount = slice(seats, prev, level);
        let eligible = seat_list(contenders(seats, level));
        layer_step(seats, prev, level);
        layer_bounded(seats, level);
        model::count_bounds(contributors(seats, level));
        assert(amount >= 0) by (nonlinear_arith)
            requires
                amount == (level - prev) * model::count(contributors(seats, level)),
                level > prev,
                model::count(contributors(seats, level)) >= 0,
        ;
        with_slice_total(pots, amount, eligible);
        pots_above_bounded(seats, level, with_slice(pots, amount, eligible));
    }
}

/// The pots of a showdown never hold more than was committed.
pub proof fn pots_hold_no_more(seats: Seq<Seat>)
    requires
        forall|i: int| 0 <= i < seats.len() ==> (#[trigger] seats[i]).committed >= 0,
        model::total(model::commitments(seats)) <= u32::MAX,
    ensures
        pots_total(showdown_pots(seats)) <= model::total(model::commitments(seats)),
{
    layer_bounded(seats, 0);
    pots_above_bounded(seats, 0, Seq::empty());
}

/// The pots of a showdown hold every chip that was committed, as long as somebody
/// who committed chips has not folded.
pub proof fn pots_hold_every_chip(seats: Seq<Seat>)
    requires
        forall|i: int| 0 <= i < seats.len() ==> (#[trigger] seats[i]).committed >= 0,
        model::total(model::commitments(seats)) <= u32::MAX,
        exists|i: int|
            0 <= i < seats.len() && (#[trigger] seats[i]).committed > 0 && seats[i].status
                != PlayerStatus::Folded,
    ensures
        pots_total(showdown_pots(seats)) == model::total(model::commitments(seats)),
{
    layer_bounded(seats, 0);
    pots_above_total(seats, 0, Seq::empty());
}

/// Somebody can win `pot`, and whoever can win it committed chips and has not folded.
pub open spec fn winnable(seats: Seq<Seat>, pot: (u32, Seq<usize>)) -> bool {
    &&& pot.1.len() > 0
    &&& pot.1.no_duplicates()
    &&& forall|k: int|
        0 <= k < pot.1.len() ==> (#[trigger] pot.1[k]) < seats.len()
            && seats[pot.1[k] as int].committed > 0 && seats[pot.1[k] as int].status
            != PlayerStatus::Folded
}

proof fn pots_above_winnable(seats: Seq<Seat>, prev: int, pots: Seq<(u32, Seq<usize>)>)
    requires
        prev >= 0,
        seats.len() <= usize::MAX,
        forall|p: int| 0 <= p < pots.len() ==> winnable(seats, #[trigger] pots[p]),
    ensures
        forall|p: int|
            0 <= p < pots_above(seats, prev, pots).len() ==> winnable(
                seats,
                #[trigger] pots_above(seats, prev, pots)[p],
            ),
    decreases highest_level(seats) - prev,
{
    next_level_bounds(seats, prev);
    if let Some(level) = next_level(seats, prev) {
        let marks = contenders(seats, level);
        let eligible = seat_list(marks);
        let more = with_slice(pots, slice(seats, prev, level), eligible);
        model::count_bounds(marks);
        model::marked_in_order(marks);
        assert forall|k: int| 0 <= k < eligible.len() implies (#[trigger] eligible[k])
            == model::marked(marks)[k] && eligible[k] < seats.len() && seats[eligible[k] as int].committed > 0
            && seats[eligible[k] as int].status != PlayerStatus::Folded by {
            let m = model::marked(marks)[k];
            assert(marks[m]);
        }
        assert forall|p: int| 0 <= p < more.len() implies winnable(seats, #[trigger] more[p]) by {
            if p < pots.len() {
                assert(winnable(seats, pots[p]));
                assert(more[p].1 == pots[p].1);
            }
        }
        pots_above_winnable(seats, level, more);
        assert(pots_above(seats, prev, pots) == pots_above(seats, level, more));
    } else {
        assert(pots_above(seats, prev, pots) == pots);
    }
}

/// Every pot of a showdown can be won, and only by players who committed chips and
/// have not folded.
pub proof fn pots_are_winnable(seats: Seq<Seat>)
    requires
        seats.len() <= usize::MAX,
    ensures
        forall|p: int|
            0 <= p < showdown_pots(seats).len() ==> winnable(
                seats,
                #[trigger] showdown_pots(seats)[p],
            ),
{
    pots_above_winnable(seats, 0, Seq::empty());
}

} // verus!
