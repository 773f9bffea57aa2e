//! What the counters of a seat count.

use vstd::prelude::*;

use crate::game::action::Action;
use crate::game::model;
use crate::game::model::{Event, Outcome, SeatResult};
use crate::game::state::Street;
use crate::stats;
use crate::stats::Book;

verus! {

/// The last hand started before `m` has seen no board cards yet: behind every deal of
/// board cards before `m` a hand has started since.
pub open spec fn before_the_flop(events: Seq<Event>, m: int) -> bool {
    forall|d: int|
        0 <= d < m && (#[trigger] events[d]) is BoardDealt ==> exists|h: int|
            d < h < m && (#[trigger] events[h]) is HandStarted
}

/// The event numbered `j` belongs to the hand in progress at the end of `events`.
pub open spec fn this_hand(events: Seq<Event>, j: int) -> bool {
    forall|h: int| j < h < events.len() ==> !((#[trigger] events[h]) is HandStarted)
}

/// `event` is a raise or an all-in of seat `i`.
pub open spec fn is_aggressive(event: Event, i: int) -> bool {
    event matches Event::ActionTaken { seat, action, .. } && seat == i && (action is Raise || action
        == Action::AllIn)
}

/// `event` is a call of seat `i`.
pub open spec fn is_passive(event: Event, i: int) -> bool {
    event matches Event::ActionTaken { seat, action, .. } && seat == i && action == Action::Call
}

/// Seat `i` has raised or gone all-in before the flop of the hand in progress.
pub open spec fn raised_early(events: Seq<Event>, i: int) -> bool {
    exists|j: int|
        0 <= j < events.len() && is_aggressive(#[trigger] events[j], i) && before_the_flop(events, j)
            && this_hand(events, j)
}

/// Seat `i` has called, raised or gone all-in before the flop of the hand in progress.
pub open spec fn entered_early(events: Seq<Event>, i: int) -> bool {
    exists|j: int|
        0 <= j < events.len() && (is_aggressive(#[trigger] events[j], i) || is_passive(
            events[j],
            i,
        )) && before_the_flop(events, j) && this_hand(events, j)
}

/// The weights of those of the first `n` outcomes that list seat `i` as live, together.
pub open spec fn listed_sum(
    outcomes: Seq<SeatResult>,
    i: int,
    w: spec_fn(SeatResult) -> int,
    n: int,
) -> int
    decreases n,
{
    if n <= 0 {
        0
    } else {
        listed_sum(outcomes, i, w, n - 1) + if outcomes[n - 1].seat == i && !outcomes[n
            - 1].sat_out {
            w(outcomes[n - 1])
        } else {
            0
        }
    }
}

/// The weights of the ended hands that list seat `i` as live, together. A weight can
/// depend on what came before the hand's end, on the result and on the seat's outcome.
pub open spec fn hands_sum(
    events: Seq<Event>,
    i: int,
    w: spec_fn(Seq<Event>, Outcome, SeatResult) -> int,
) -> int
    decreases events.len(),
{
    if events.len() == 0 {
        0
    } else {
        hands_sum(events.drop_last(), i, w) + match events.last() {
            Event::HandEnded { result, .. } => listed_sum(
                result.seats,
                i,
                |o: SeatResult| w(events.drop_last(), result, o),
                result.seats.len() as int,
            ),
            _ => 0,
        }
    }
}

/// All chips that changed hands: what the winners of a hand gained together.
pub open spec fn pot_size(outcomes: Seq<SeatResult>) -> int {
    model::total(
        Seq::new(
            outcomes.len(),
            |k: int|
                if outcomes[k].chip_delta > 0 {
                    outcomes[k].chip_delta
                } else {
                    0
                },
        ),
    )
}

/// One where `b` holds, else nothing.
pub open spec fn unit(b: bool) -> int {
    if b {
        1
    } else {
        0
    }
}

/// The events name seats, board cards come after the flop, and a result lists no seat
/// twice and moves amounts that a result can hold.
pub open spec fn ordinary(event: Event) -> bool {
    match event {
        Event::ActionTaken { seat, .. } => 0 <= seat,
        Event::BoardDealt { street, .. } => street != Street::Preflop,
        Event::HandEnded { result, .. } => {
            &&& forall|k: int|
                0 <= k < result.seats.len() ==> {
                    &&& 0 <= (#[trigger] result.seats[k]).seat
                    &&& i32::MIN <= result.seats[k].chip_delta <= i32::MAX
                }
            &&& forall|j: int, k: int|
                0 <= j < k < result.seats.len() ==> (#[trigger] result.seats[j]).seat != (
                #[trigger] result.seats[k]).seat
            &&& pot_size(result.seats) <= u64::MAX
        },
        _ => true,
    }
}

/// None of the counters of seat `i` comes to its end over `events`.
pub open spec fn countable(b: Book, events: Seq<Event>, i: int) -> bool {
    let s = b.seats[i];
    let n = events.len() as int;
    &&& s.hands_dealt + n <= u64::MAX
    &&& s.hands_won + n <= u64::MAX
    &&& s.vpip_hands + n <= u64::MAX
    &&& s.pfr_hands + n <= u64::MAX
    &&& s.aggressive_actions + n <= u64::MAX
    &&& s.passive_actions + n <= u64::MAX
    &&& i64::MIN + n * 0x8000_0000 <= s.chip_delta_total <= i64::MAX - n * 0x8000_0000
    &&& s.total_pot + hands_sum(
        events,
        i,
        |p: Seq<Event>, r: Outcome, o: SeatResult| pot_size(r.seats),
    ) <= u64::MAX
}

/// The pot that is counted is what the winners gained.
proof fn pots_are_gains(outcomes: Seq<SeatResult>, n: int)
    requires
        0 <= n <= outcomes.len(),
        pot_size(outcomes) <= u64::MAX,
        forall|k: int|
            0 <= k < outcomes.len() ==> (#[trigger] outcomes[k]).chip_delta <= i32::MAX,
    ensures
        stats::pot_won(outcomes, n) == pot_size(outcomes.take(n)),
        0 <= pot_size(outcomes.take(n)) <= pot_size(outcomes),
    decreases n,
{
    let gains = |s: Seq<SeatResult>|
        Seq::new(
            s.len(),
            |k: int|
                if s[k].chip_delta > 0 {
                    s[k].chip_delta
                } else {
                    0
                },
        );
    let all = gains(outcomes);
    let upto = gains(outcomes.take(n));
    assert(all.take(n) =~= upto);
    model::total_bounds(all, n);
    if n > 0 {
        pots_are_gains(outcomes, n - 1);
        assert(upto.drop_last() =~= gains(outcomes.take(n - 1)));
        assert(outcomes[n - 1].chip_delta <= i32::MAX);
    } else {
        assert(upto.len() == 0);
    }
}

/// A result that lists no seat twice changes a seat's counters once, where it lists it
/// as live, and else not at all. Returns where it does, or a negative number.
proof fn one_listing(b: Book, outcomes: Seq<SeatResult>, pot: u64, i: int, n: int) -> (k: int)
    requires
        0 <= i < b.seats.len(),
        0 <= n <= outcomes.len(),
        forall|k: int| 0 <= k < outcomes.len() ==> 0 <= (#[trigger] outcomes[k]).seat,
        forall|j: int, k: int|
            0 <= j < k < outcomes.len() ==> (#[trigger] outcomes[j]).seat != (
            #[trigger] outcomes[k]).seat,
    ensures
        stats::after_outcomes(b, outcomes, pot, n).len() == b.seats.len(),
        k < n,
        k < 0 ==> {
            &&& stats::after_outcomes(b, outcomes, pot, n)[i] == b.seats[i]
            &&& forall|w: spec_fn(SeatResult) -> int| #[trigger] listed_sum(outcomes, i, w, n) == 0
            &&& forall|j: int|
                0 <= j < n ==> (#[trigger] outcomes[j]).seat != i || outcomes[j].sat_out
        },
        k >= 0 ==> {
            &&& outcomes[k].seat == i && !outcomes[k].sat_out
            &&& stats::after_outcomes(b, outcomes, pot, n)[i] == stats::after_hand(
                b.seats[i],
                outcomes[k].chip_delta,
                stats::is_marked(b.vpip, i),
                stats::is_marked(b.pfr, i),
                pot,
            )
            &&& forall|w: spec_fn(SeatResult) -> int| #[trigger]
                listed_sum(outcomes, i, w, n) == w(outcomes[k])
        },
    decreases n,
{
    if n <= 0 {
        -1
    } else {
        let before = one_listing(b, outcomes, pot, i, n - 1);
        let o = outcomes[n - 1];
        assert(0 <= o.seat);
        assert forall|w: spec_fn(SeatResult) -> int| #[trigger] listed_sum(outcomes, i, w, n)
            == listed_sum(outcomes, i, w, n - 1) + if o.seat == i && !o.sat_out {
            w(o)
        } else {
            0
        } by {}
        if before >= 0 {
            assert(outcomes[before].seat != o.seat);
            before
        } else if o.seat == i && !o.sat_out {
            n - 1
        } else {
            -1
        }
    }
}

/// Before the flop as the book has it.
proof fn street_is_tracked(events: Seq<Event>)
    requires
        events.len() > 0,
    ensures
        events.last() is HandStarted ==> before_the_flop(events, events.len() as int),
        events.last() is BoardDealt ==> !before_the_flop(events, events.len() as int),
        !(events.last() is HandStarted) && !(events.last() is BoardDealt) ==> before_the_flop(
            events,
            events.len() as int,
        ) == before_the_flop(events.drop_last(), events.len() - 1),
        forall|j: int|
            0 <= j < events.len() ==> #[trigger] before_the_flop(events, j) == before_the_flop(
                events.drop_last(),
                j,
            ),
{
    let n = events.len() as int;
    let head = events.drop_last();
    assert forall|j: int| 0 <= j < n implies #[trigger] before_the_flop(events, j)
        == before_the_flop(head, j) by {
        if before_the_flop(events, j) {
            assert forall|d: int| 0 <= d < j && (#[trigger] head[d]) is BoardDealt implies exists|
                h: int,
            |
                d < h < j && (#[trigger] head[h]) is HandStarted by {
                assert(events[d] is BoardDealt);
                let h = choose|h: int| d < h < j && (#[trigger] events[h]) is HandStarted;
                assert(head[h] is HandStarted);
            }
        }
        if before_the_flop(head, j) {
            assert forall|d: int| 0 <= d < j && (#[trigger] events[d]) is BoardDealt implies exists|
                h: int,
            |
                d < h < j && (#[trigger] events[h]) is HandStarted by {
                assert(head[d] is BoardDealt);
                let h = choose|h: int| d < h < j && (#[trigger] head[h]) is HandStarted;
                assert(events[h] is HandStarted);
            }
        }
    }
    if events.last() is HandStarted {
        assert(events[n - 1] is HandStarted);
    } else if events.last() is BoardDealt {
        assert(events[n - 1] is BoardDealt);
    } else {
        assert(before_the_flop(events, n - 1) == before_the_flop(head, n - 1));
        if before_the_flop(events, n) {
            assert forall|d: int| 0 <= d < n - 1 && (
            #[trigger] events[d]) is BoardDealt implies exists|h: int|
                d < h < n - 1 && (#[trigger] events[h]) is HandStarted by {
                let h = choose|h: int| d < h < n && (#[trigger] events[h]) is HandStarted;
                assert(events[h] is HandStarted && h != n - 1);
            }
        }
        if before_the_flop(events, n - 1) {
            assert forall|d: int| 0 <= d < n && (#[trigger] events[d]) is BoardDealt implies exists|
                h: int,
            |
                d < h < n && (#[trigger] events[h]) is HandStarted by {
                assert(d != n - 1);
                let h = choose|h: int| d < h < n - 1 && (#[trigger] events[h]) is HandStarted;
                assert(events[h] is HandStarted);
            }
        }
    }
}

/// One more event: a start wipes out who has entered, an action before the flop adds to
/// it, and nothing else matters.
proof fn early_marks_are_tracked(events: Seq<Event>, i: int)
    requires
        events.len() > 0,
    ensures
        ({
            let head = events.drop_last();
            let early = before_the_flop(head, head.len() as int);
            let e = events.last();
            if e is HandStarted {
                !entered_early(events, i) && !raised_early(events, i)
            } else {
                &&& entered_early(events, i) == (entered_early(head, i) || (early && (
                is_aggressive(e, i) || is_passive(e, i))))
                &&& raised_early(events, i) == (raised_early(head, i) || (early && is_aggressive(
                    e,
                    i,
                )))
            }
        }),
{
    let n = events.len() as int;
    let head = events.drop_last();
    let e = events.last();
    street_is_tracked(events);
    assert(before_the_flop(events, n - 1) == before_the_flop(head, n - 1));
    if e is HandStarted {
        assert(events[n - 1] is HandStarted);
        assert forall|j: int| 0 <= j < n - 1 implies !this_hand(events, j) by {}
    } else {
        assert forall|j: int| 0 <= j < n - 1 implies this_hand(events, j) == #[trigger] this_hand(
            head,
            j,
        ) by {
            if this_hand(head, j) {
                assert forall|h: int| j < h < n implies !((
                #[trigger] events[h]) is HandStarted) by {
                    if h < n - 1 {
                        assert(!(head[h] is HandStarted));
                    }
                }
            }
            if this_hand(events, j) {
                assert forall|h: int| j < h < n - 1 implies !((
                #[trigger] head[h]) is HandStarted) by {
                    assert(!(events[h] is HandStarted));
                }
            }
        }
        assert(this_hand(events, n - 1));
        if entered_early(head, i) {
            let j = choose|j: int|
                0 <= j < head.len() && (is_aggressive(#[trigger] head[j], i) || is_passive(
                    head[j],
                    i,
                )) && before_the_flop(head, j) && this_hand(head, j);
            assert(events[j] == head[j]);
            assert(this_hand(events, j) && before_the_flop(events, j));
        }
        if raised_early(head, i) {
            let j = choose|j: int|
                0 <= j < head.len() && is_aggressive(#[trigger] head[j], i) && before_the_flop(
                    head,
                    j,
                ) && this_hand(head, j);
            assert(events[j] == head[j]);
            assert(this_hand(events, j) && before_the_flop(events, j));
        }
        if entered_early(events, i) {
            let j = choose|j: int|
                0 <= j < n && (is_aggressive(#[trigger] events[j], i) || is_passive(events[j], i))
                    && before_the_flop(events, j) && this_hand(events, j);
            if j < n - 1 {
                assert(head[j] == events[j]);
                assert(this_hand(head, j) && before_the_flop(head, j));
            }
        }
        if raised_early(events, i) {
            let j = choose|j: int|
                0 <= j < n && is_aggressive(#[trigger] events[j], i) && before_the_flop(events, j)
                    && this_hand(events, j);
            if j < n - 1 {
                assert(head[j] == events[j]);
                assert(this_hand(head, j) && before_the_flop(head, j));
            }
        }
        if before_the_flop(head, n - 1) && (is_aggressive(e, i) || is_passive(e, i)) {
            assert(is_aggressive(events[n - 1], i) || is_passive(events[n - 1], i));
        }
        if before_the_flop(head, n - 1) && is_aggressive(e, i) {
            assert(is_aggressive(events[n - 1], i));
        }
    }
}

/// From the first start of a hand on, the book's marks say who has entered and who has
/// raised before the flop of the hand in progress.
proof fn marks_are_tracked(b: Book, events: Seq<Event>, i: int)
    requires
        b.fits(),
        0 <= i < b.seats.len(),
        events.len() > 0,
        events[0] is HandStarted,
        forall|k: int| 0 <= k < events.len() ==> ordinary(#[trigger] events[k]),
    ensures
        ({
            let a = stats::after_events(b, events);
            &&& a.seats.len() == b.seats.len()
            &&& a.fits()
            &&& (a.street == Street::Preflop) == before_the_flop(events, events.len() as int)
            &&& a.vpip[i] == entered_early(events, i)
            &&& a.pfr[i] == raised_early(events, i)
        }),
    decreases events.len(),
{
    let head = events.drop_last();
    let e = events.last();
    assert(ordinary(events[events.len() - 1]));
    street_is_tracked(events);
    early_marks_are_tracked(events, i);
    if head.len() > 0 {
        assert forall|k: int| 0 <= k < head.len() implies ordinary(#[trigger] head[k]) by {
            assert(ordinary(events[k]));
        }
        marks_are_tracked(b, head, i);
    } else {
        assert(e == events[0]);
        assert(stats::after_events(b, head) == b);
    }
    if let Event::HandEnded { result, .. } = e {
        let pot = stats::pot_won(result.seats, result.seats.len() as int);
        let k = one_listing(
            stats::after_events(b, head),
            result.seats,
            pot,
            i,
            result.seats.len() as int,
        );
    }
}

proof fn hands_sum_is_no_less(
    events: Seq<Event>,
    i: int,
    w: spec_fn(Seq<Event>, Outcome, SeatResult) -> int,
)
    requires
        events.len() > 0,
        forall|p: Seq<Event>, r: Outcome, o: SeatResult|
            p == events.drop_last() && (events.last() matches Event::HandEnded { result, .. }
                && result == r) ==> 0 <= #[trigger] w(p, r, o),
    ensures
        hands_sum(events.drop_last(), i, w) <= hands_sum(events, i, w),
{
    if let Event::HandEnded { result, .. } = events.last() {
        listed_sum_is_no_less(
            result.seats,
            i,
            |o: SeatResult| w(events.drop_last(), result, o),
            result.seats.len() as int,
        );
    }
}

proof fn listed_sum_is_no_less(
    outcomes: Seq<SeatResult>,
    i: int,
    w: spec_fn(SeatResult) -> int,
    n: int,
)
    requires
        forall|o: SeatResult| 0 <= #[trigger] w(o),
    ensures
        0 <= listed_sum(outcomes, i, w, n),
    decreases n,
{
    if n > 0 {
        listed_sum_is_no_less(outcomes, i, w, n - 1);
        assert(0 <= w(outcomes[n - 1]));
    }
}

/// What a seat's counters count. Over any events that begin with the start of a hand:
/// the hands dealt grow by the ended hands that list the seat as live, and the hands won
/// by those that it left with a gain; the total by all gains and losses; the pots by what
/// the winners of those hands gained. VPIP grows by the hands in which the seat called,
/// raised or went all-in between the hand's start and its first board cards, and PFR by
/// those in which it raised or went all-in there: a hand that it gave up before the flop
/// without putting chips in adds to neither. On all streets raises and all-ins are
/// aggressive, calls passive.
pub proof fn counters_count(b: Book, events: Seq<Event>, i: int)
    requires
        b.fits(),
        0 <= i < b.seats.len(),
        events.len() > 0 ==> events[0] is HandStarted,
        forall|k: int| 0 <= k < events.len() ==> ordinary(#[trigger] events[k]),
        countable(b, events, i),
    ensures
        ({
            let before = b.seats[i];
            let after = stats::after_events(b, events).seats[i];
            &&& stats::after_events(b, events).seats.len() == b.seats.len()
            &&& after.hands_dealt == before.hands_dealt + hands_sum(
                events,
                i,
                |p: Seq<Event>, r: Outcome, o: SeatResult| 1,
            )
            &&& after.hands_won == before.hands_won + hands_sum(
                events,
                i,
                |p: Seq<Event>, r: Outcome, o: SeatResult| unit(o.chip_delta > 0),
            )
            &&& after.chip_delta_total == before.chip_delta_total + hands_sum(
                events,
                i,
                |p: Seq<Event>, r: Outcome, o: SeatResult| o.chip_delta,
            )
            &&& after.vpip_hands == before.vpip_hands + hands_sum(
                events,
                i,
                |p: Seq<Event>, r: Outcome, o: SeatResult| unit(entered_early(p, i)),
            )
            &&& after.pfr_hands == before.pfr_hands + hands_sum(
                events,
                i,
                |p: Seq<Event>, r: Outcome, o: SeatResult| unit(raised_early(p, i)),
            )
            &&& after.total_pot == before.total_pot + hands_sum(
                events,
                i,
                |p: Seq<Event>, r: Outcome, o: SeatResult| pot_size(r.seats),
            )
            &&& after.aggressive_actions == before.aggressive_actions + events.filter(
                |e: Event| is_aggressive(e, i),
            ).len()
            &&& after.passive_actions == before.passive_actions + events.filter(
                |e: Event| is_passive(e, i),
            ).len()
        }),
{
    counters_count_so_far(b, events, i);
}

/// The same, and how far the counters can have grown.
#[verifier::rlimit(60)]
#[verifier::spinoff_prover]
proof fn counters_count_so_far(b: Book, events: Seq<Event>, i: int)
    requires
        b.fits(),
        0 <= i < b.seats.len(),
        events.len() > 0 ==> events[0] is HandStarted,
        forall|k: int| 0 <= k < events.len() ==> ordinary(#[trigger] events[k]),
        countable(b, events, i),
    ensures
        ({
            let before = b.seats[i];
            let after = stats::after_events(b, events).seats[i];
            let n = events.len() as int;
            &&& stats::after_events(b, events).seats.len() == b.seats.len()
            &&& after.hands_dealt == before.hands_dealt + hands_sum(
                events,
                i,
                |p: Seq<Event>, r: Outcome, o: SeatResult| 1,
            )
            &&& after.hands_dealt <= before.hands_dealt + n
            &&& after.hands_won == before.hands_won + hands_sum(
                events,
                i,
                |p: Seq<Event>, r: Outcome, o: SeatResult| unit(o.chip_delta > 0),
            )
            &&& after.hands_won <= before.hands_won + n
            &&& after.chip_delta_total == before.chip_delta_total + hands_sum(
                events,
                i,
                |p: Seq<Event>, r: Outcome, o: SeatResult| o.chip_delta,
            )
            &&& before.chip_delta_total - n * 0x8000_0000 <= after.chip_delta_total
                <= before.chip_delta_total + n * 0x8000_0000
            &&& after.vpip_hands == before.vpip_hands + hands_sum(
                events,
                i,
                |p: Seq<Event>, r: Outcome, o: SeatResult| unit(entered_early(p, i)),
            )
            &&& after.vpip_hands <= before.vpip_hands + n
            &&& after.pfr_hands == before.pfr_hands + hands_sum(
                events,
                i,
                |p: Seq<Event>, r: Outcome, o: SeatResult| unit(raised_early(p, i)),
            )
            &&& after.pfr_hands <= before.pfr_hands + n
            &&& after.total_pot == before.total_pot + hands_sum(
                events,
                i,
                |p: Seq<Event>, r: Outcome, o: SeatResult| pot_size(r.seats),
            )
            &&& after.aggressive_actions == before.aggressive_actions + events.filter(
                |e: Event| is_aggressive(e, i),
            ).len()
            &&& after.aggressive_actions <= before.aggressive_actions + n
            &&& after.passive_actions == before.passive_actions + events.filter(
                |e: Event| is_passive(e, i),
            ).len()
            &&& after.passive_actions <= before.passive_actions + n
        }),
    decreases events.len(),
{
    reveal(Seq::filter);
    if events.len() > 0 {
        let head = events.drop_last();
        let e = events.last();
        let n = events.len() as int;
        let pots = |p: Seq<Event>, r: Outcome, o: SeatResult| pot_size(r.seats);
        assert(ordinary(events[n - 1]));
        assert forall|k: int| 0 <= k < head.len() implies ordinary(#[trigger] head[k]) by {
            assert(ordinary(events[k]));
        }
        if let Event::HandEnded { result, .. } = e {
            let m = result.seats.len() as int;
            assert forall|k: int| 0 <= k < m implies (
            #[trigger] result.seats[k]).chip_delta <= i32::MAX by {}
            pots_are_gains(result.seats, m);
            assert(result.seats.take(m) =~= result.seats);
        }
        hands_sum_is_no_less(events, i, pots);
        counters_count_so_far(b, head, i);
        if head.len() > 0 {
            marks_are_tracked(b, head, i);
        } else {
            assert(e == events[0]);
        }
        let mid = stats::after_events(b, head);
        if let Event::HandEnded { result, .. } = e {
            let pot = stats::pot_won(result.seats, result.seats.len() as int);
            let k = one_listing(mid, result.seats, pot, i, result.seats.len() as int);
            if k >= 0 {
                assert(i32::MIN <= result.seats[k].chip_delta <= i32::MAX);
            }
        }
    }
}

} // verus!
