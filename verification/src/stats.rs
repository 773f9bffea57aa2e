//! Per-seat statistics over a run of hands.

use vstd::prelude::*;

use crate::game::action::Action;
use crate::game::event;
use crate::game::event::{EngineEvent, EventSink, HandResult};
use crate::game::model;
use crate::game::state::Street;

verus! {

/// Counters of one seat.
#[derive(Debug, Clone, Copy)]
pub struct SeatStats {
    pub hands_dealt: u64,
    pub hands_won: u64,
    pub chip_delta_total: i64,
    /// Hands where seat called or raised preflop (voluntarily).
    pub vpip_hands: u64,
    /// Hands where seat raised or went all-in preflop.
    pub pfr_hands: u64,
    /// Bets + raises + all-ins across all streets.
    pub aggressive_actions: u64,
    /// Calls across all streets.
    pub passive_actions: u64,
    /// Sum of pot sizes at hand end (for average pot calculation).
    pub total_pot: u64,
}

impl SeatStats {
    /// Nothing counted yet.
    pub open spec fn zero() -> SeatStats {
        SeatStats {
            hands_dealt: 0,
            hands_won: 0,
            chip_delta_total: 0,
            vpip_hands: 0,
            pfr_hands: 0,
            aggressive_actions: 0,
            passive_actions: 0,
            total_pot: 0,
        }
    }
}

impl Default for SeatStats {
    fn default() -> (s: SeatStats)
        ensures
            s == SeatStats::zero(),
    {
        SeatStats {
            hands_dealt: 0,
            hands_won: 0,
            chip_delta_total: 0,
            vpip_hands: 0,
            pfr_hands: 0,
            aggressive_actions: 0,
            passive_actions: 0,
            total_pot: 0,
        }
    }
}

/// The sum of two counters. A counter that overflows starts over at zero.
pub open spec fn plus(x: u64, y: u64) -> u64 {
    if x + y > u64::MAX {
        (x + y - 0x1_0000_0000_0000_0000) as u64
    } else {
        (x + y) as u64
    }
}

/// The running total `x` moved by `y`, wrapping at the ends of the range.
pub open spec fn moved(x: i64, y: i64) -> i64 {
    if x + y > i64::MAX {
        (x + y - 0x1_0000_0000_0000_0000) as i64
    } else if x + y < i64::MIN {
        (x + y + 0x1_0000_0000_0000_0000) as i64
    } else {
        (x + y) as i64
    }
}

/// Everything that statistics hold on to.
#[verifier::ext_equal]
pub struct Book {
    pub seats: Seq<SeatStats>,
    pub street: Street,
    /// Seats that have put chips in voluntarily preflop, this hand.
    pub vpip: Seq<bool>,
    /// Seats that have raised preflop, this hand.
    pub pfr: Seq<bool>,
}

impl Book {
    /// There is one mark of each kind for each seat.
    pub open spec fn fits(self) -> bool {
        self.vpip.len() == self.seats.len() && self.pfr.len() == self.seats.len()
    }
}

/// Nothing counted yet, for `n` seats.
pub open spec fn blank(n: nat) -> Book {
    Book {
        seats: Seq::new(n, |i: int| SeatStats::zero()),
        street: Street::Preflop,
        vpip: Seq::new(n, |i: int| false),
        pfr: Seq::new(n, |i: int| false),
    }
}

/// Whether `seat` is among `marks` and marked.
pub open spec fn is_marked(marks: Seq<bool>, seat: int) -> bool {
    seat < marks.len() && marks[seat]
}

/// `marks` with `seat` marked, where it is among them.
pub open spec fn with_mark(marks: Seq<bool>, seat: int) -> Seq<bool> {
    if seat < marks.len() {
        marks.update(seat, true)
    } else {
        marks
    }
}

/// The book after `seat` took `action`. Raises and all-ins are aggressive, calls
/// passive; before the flop both are voluntary. Folds and checks count nothing, and
/// neither do seats beyond the book.
pub open spec fn after_action(b: Book, seat: int, action: Action) -> Book {
    let early = b.street == Street::Preflop;
    if seat >= b.seats.len() {
        b
    } else {
        match action {
            Action::Raise(_) | Action::AllIn => Book {
                seats: b.seats.update(
                    seat,
                    SeatStats {
                        aggressive_actions: plus(b.seats[seat].aggressive_actions, 1),
                        ..b.seats[seat]
                    },
                ),
                vpip: if early {
                    with_mark(b.vpip, seat)
                } else {
                    b.vpip
                },
                pfr: if early {
                    with_mark(b.pfr, seat)
                } else {
                    b.pfr
                },
                ..b
            },
            Action::Call => Book {
                seats: b.seats.update(
                    seat,
                    SeatStats {
                        passive_actions: plus(b.seats[seat].passive_actions, 1),
                        ..b.seats[seat]
                    },
                ),
                vpip: if early {
                    with_mark(b.vpip, seat)
                } else {
                    b.vpip
                },
                ..b
            },
            Action::Fold | Action::Check => b,
        }
    }
}

/// The chips that the first `n` outcomes won, which is the size of the pot.
pub open spec fn pot_won(outcomes: Seq<model::SeatResult>, n: int) -> u64
    decreases n,
{
    if n <= 0 {
        0
    } else if outcomes[n - 1].chip_delta > 0 {
        plus(pot_won(outcomes, n - 1), outcomes[n - 1].chip_delta as u64)
    } else {
        pot_won(outcomes, n - 1)
    }
}

/// One if `b`, else zero.
pub open spec fn one_if(b: bool) -> u64 {
    if b {
        1
    } else {
        0
    }
}

/// A seat's counters after a hand that it played live and left with `delta`.
pub open spec fn after_hand(s: SeatStats, delta: int, vpip: bool, pfr: bool, pot: u64) -> SeatStats {
    SeatStats {
        hands_dealt: plus(s.hands_dealt, 1),
        chip_delta_total: moved(s.chip_delta_total, delta as i64),
        hands_won: plus(s.hands_won, one_if(delta > 0)),
        vpip_hands: plus(s.vpip_hands, one_if(vpip)),
        pfr_hands: plus(s.pfr_hands, one_if(pfr)),
        total_pot: plus(s.total_pot, pot),
        ..s
    }
}

/// The counters after the first `n` outcomes of a hand. Seats that sat out, and
/// seats beyond the book, are not counted.
pub open spec fn after_outcomes(
    b: Book,
    outcomes: Seq<model::SeatResult>,
    pot: u64,
    n: int,
) -> Seq<SeatStats>
    decreases n,
{
    if n <= 0 {
        b.seats
    } else {
        let before = after_outcomes(b, outcomes, pot, n - 1);
        let o = outcomes[n - 1];
        if o.seat >= before.len() || o.sat_out {
            before
        } else {
            before.update(
                o.seat,
                after_hand(
                    before[o.seat],
                    o.chip_delta,
                    is_marked(b.vpip, o.seat),
                    is_marked(b.pfr, o.seat),
                    pot,
                ),
            )
        }
    }
}

/// The book after `event`.
pub open spec fn after_event(b: Book, event: model::Event) -> Book {
    match event {
        model::Event::HandStarted { .. } => Book {
            street: Street::Preflop,
            vpip: Seq::new(b.vpip.len(), |i: int| false),
            pfr: Seq::new(b.pfr.len(), |i: int| false),
            ..b
        },
        model::Event::HoleCardsDealt { .. } => b,
        model::Event::BoardDealt { street, .. } => Book { street, ..b },
        model::Event::ActionTaken { seat, action, .. } => after_action(b, seat, action),
        model::Event::PlayerAllIn { .. } => b,
        model::Event::HandEnded { result, .. } => Book {
            seats: after_outcomes(
                b,
                result.seats,
                pot_won(result.seats, result.seats.len() as int),
                result.seats.len() as int,
            ),
            ..b
        },
    }
}

/// The book after `events`, one after the other.
pub open spec fn after_events(b: Book, events: Seq<model::Event>) -> Book
    decreases events.len(),
{
    if events.len() == 0 {
        b
    } else {
        after_event(after_events(b, events.drop_last()), events.last())
    }
}

/// An [`EventSink`] that accumulates per-seat statistics across a simulation run.
///
/// Tracks VPIP and PFR by observing the current street inferred from the event
/// sequence: a hand starts preflop, and each deal of board cards moves it on.
pub struct StatsSink {
    pub seats: Vec<SeatStats>,
    /// The street of the hand in progress.
    pub current_street: Street,
    /// Who has put chips in voluntarily; reset when a hand starts.
    pub vpip_this_hand: Vec<bool>,
    /// Who has raised before the flop; reset when a hand starts.
    pub pfr_this_hand: Vec<bool>,
}

impl View for StatsSink {
    type V = Book;

    open spec fn view(&self) -> Book {
        Book {
            seats: self.seats@,
            street: self.current_street,
            vpip: self.vpip_this_hand@,
            pfr: self.pfr_this_hand@,
        }
    }
}

fn all_false(n: usize) -> (marks: Vec<bool>)
    ensures
        marks@ == Seq::new(n as nat, |i: int| false),
{
    let mut marks: Vec<bool> = Vec::new();
    while marks.len() < n
        invariant
            marks@.len() <= n,
            forall|i: int| 0 <= i < marks@.len() ==> !marks@[i],
        decreases n - marks@.len(),
    {
        marks.push(false);
    }
    assert(marks@ =~= Seq::new(n as nat, |i: int| false));
    marks
}

/// Marks `seat`, where it is among `marks`.
fn mark(marks: &mut Vec<bool>, seat: usize)
    ensures
        final(marks)@ == with_mark(old(marks)@, seat as int),
{
    if seat < marks.len() {
        marks.set(seat, true);
    }
}

impl StatsSink {
    pub fn new(n_seats: usize) -> (sink: StatsSink)
        ensures
            sink@ == blank(n_seats as nat),
            sink@.fits(),
    {
        let mut seats: Vec<SeatStats> = Vec::new();
        while seats.len() < n_seats
            invariant
                seats@.len() <= n_seats,
                forall|i: int| 0 <= i < seats@.len() ==> seats@[i] == SeatStats::zero(),
            decreases n_seats - seats@.len(),
        {
            seats.push(SeatStats::default());
        }
        let sink = StatsSink {
            seats,
            current_street: Street::Preflop,
            vpip_this_hand: all_false(n_seats),
            pfr_this_hand: all_false(n_seats),
        };
        assert(sink@ =~= blank(n_seats as nat));
        sink
    }

    pub fn n_seats(&self) -> (n: usize)
        ensures
            n == self@.seats.len(),
    {
        self.seats.len()
    }

    /// Hands played (all live seats see the same count).
    pub fn hands_played(&self) -> (n: u64)
        ensures
            n == if self@.seats.len() > 0 {
                self@.seats[0].hands_dealt
            } else {
                0
            },
    {
        if self.seats.len() > 0 {
            self.seats[0].hands_dealt
        } else {
            0
        }
    }

    /// Counts an action of `seat`.
    fn count_action(&mut self, seat: usize, action: Action)
        ensures
            final(self)@ == after_action(old(self)@, seat as int, action),
    {
        if seat >= self.seats.len() {
            return;
        }
        let early = self.current_street == Street::Preflop;
        let mut s = self.seats[seat];
        match action {
            Action::Raise(_) | Action::AllIn => {
                s.aggressive_actions = s.aggressive_actions.wrapping_add(1);
                self.seats.set(seat, s);
                if early {
                    mark(&mut self.vpip_this_hand, seat);
                    mark(&mut self.pfr_this_hand, seat);
                }
            },
            Action::Call => {
                s.passive_actions = s.passive_actions.wrapping_add(1);
                self.seats.set(seat, s);
                if early {
                    mark(&mut self.vpip_this_hand, seat);
                }
            },
            // Fold and Check don't contribute to VPIP/PFR/AF.
            Action::Fold | Action::Check => {},
        }
        assert(self@ =~= after_action(old(self)@, seat as int, action));
    }

    /// Counts the end of a hand.
    fn count_hand(&mut self, result: &HandResult)
        ensures
            final(self)@ == (Book {
                seats: after_outcomes(
                    old(self)@,
                    result@.seats,
                    pot_won(result@.seats, result@.seats.len() as int),
                    result@.seats.len() as int,
                ),
                ..old(self)@
            }),
    {
        // Pot size = sum of positive chip deltas (total chips won).
        let mut pot: u64 = 0;
        let mut i: usize = 0;
        while i < result.seats.len()
            invariant
                i <= result.seats@.len(),
                pot == pot_won(result@.seats, i as int),
            decreases result.seats@.len() - i,
        {
            let delta: i32 = result.seats[i].chip_delta;
            if delta > 0 {
                pot = pot.wrapping_add(delta as u64);
            }
            i = i + 1;
        }
        let ghost before = self@;
        let mut i: usize = 0;
        while i < result.seats.len()
            invariant
                i <= result.seats@.len(),
                before == old(self)@,
                pot == pot_won(result@.seats, result@.seats.len() as int),
                self@.seats == after_outcomes(before, result@.seats, pot, i as int),
                self@ == (Book { seats: self@.seats, ..before }),
            decreases result.seats@.len() - i,
        {
            let outcome = result.seats[i];
            assert(outcome@ == result@.seats[i as int]);
            let seat: usize = outcome.seat;
            // Dead-hand seats are invisible to stats even though they appear in the
            // result (to preserve chip accounting upstream).
            if seat < self.seats.len() && !outcome.sat_out {
                let mut s = self.seats[seat];
                s.hands_dealt = s.hands_dealt.wrapping_add(1);
                s.chip_delta_total = s.chip_delta_total.wrapping_add(outcome.chip_delta as i64);
                if outcome.chip_delta > 0 {
                    s.hands_won = s.hands_won.wrapping_add(1);
                }
                if seat < self.vpip_this_hand.len() && self.vpip_this_hand[seat] {
                    s.vpip_hands = s.vpip_hands.wrapping_add(1);
                }
                if seat < self.pfr_this_hand.len() && self.pfr_this_hand[seat] {
                    s.pfr_hands = s.pfr_hands.wrapping_add(1);
                }
                s.total_pot = s.total_pot.wrapping_add(pot);
                self.seats.set(seat, s);
            }
            i = i + 1;
        }
    }
}

impl EventSink for StatsSink {
    open spec fn takes(&self, event: model::Event, next: &Self) -> bool {
        next@ == after_event(self@, event)
    }

    fn on_event(&mut self, event: &EngineEvent) {
        match event {
            EngineEvent::HandStarted { .. } => {
                self.current_street = Street::Preflop;
                self.vpip_this_hand = all_false(self.vpip_this_hand.len());
                self.pfr_this_hand = all_false(self.pfr_this_hand.len());
            },
            // Hands are counted when they end, for live seats only, so dead-hand
            // seats (which are also dealt cards) aren't counted.
            EngineEvent::HoleCardsDealt { .. } => {},
            EngineEvent::BoardDealt { street, .. } => {
                self.current_street = *street;
            },
            EngineEvent::ActionTaken { seat, action, .. } => {
                self.count_action(*seat, *action);
            },
            EngineEvent::HandEnded { result, .. } => {
                self.count_hand(result);
            },
            // Not relevant to stats.
            EngineEvent::PlayerAllIn { .. } => {},
        }
    }
}

/// A sink's statistics are a function of the events it received and of nothing
/// else.
pub proof fn events_fix_the_statistics(
    before: StatsSink,
    events: Seq<model::Event>,
    after: StatsSink,
)
    requires
        event::received(before, events, after),
    ensures
        after@ == after_events(before@, events),
    decreases events.len(),
{
    if events.len() > 0 {
        let mid = choose|mid: StatsSink|
            event::received(before, events.drop_last(), mid) && #[trigger] mid.takes(
                events.last(),
                &after,
            );
        events_fix_the_statistics(before, events.drop_last(), mid);
    }
}

/// Seat `i`'s counters agree with one another: it has won no more hands than it was
/// dealt, and every preflop raise was made in a hand that it entered.
pub open spec fn counters_agree(b: Book, i: int) -> bool {
    &&& b.seats[i].hands_won <= b.seats[i].hands_dealt
    &&& b.seats[i].pfr_hands <= b.seats[i].vpip_hands <= b.seats[i].hands_dealt
    &&& b.pfr[i] ==> b.vpip[i]
}

/// Every event keeps a seat's counters in agreement, as long as the hands dealt can
/// be counted.
pub proof fn counters_keep_agreeing(b: Book, event: model::Event, i: int)
    requires
        b.fits(),
        0 <= i < b.seats.len(),
        counters_agree(b, i),
        event matches model::Event::ActionTaken { seat, .. } ==> seat >= 0,
        event matches model::Event::HandEnded { result, .. } ==> b.seats[i].hands_dealt
            + result.seats.len() <= u64::MAX && forall|k: int|
            0 <= k < result.seats.len() ==> (#[trigger] result.seats[k]).seat >= 0,
    ensures
        after_event(b, event).fits(),
        counters_agree(after_event(b, event), i),
{
    if let model::Event::HandEnded { result, .. } = event {
        let pot = pot_won(result.seats, result.seats.len() as int);
        outcomes_keep_agreeing(b, result.seats, pot, i, result.seats.len() as int);
    }
}

proof fn outcomes_keep_agreeing(
    b: Book,
    outcomes: Seq<model::SeatResult>,
    pot: u64,
    i: int,
    n: int,
)
    requires
        b.fits(),
        0 <= i < b.seats.len(),
        0 <= n <= outcomes.len(),
        counters_agree(b, i),
        b.seats[i].hands_dealt + n <= u64::MAX,
        forall|k: int| 0 <= k < outcomes.len() ==> (#[trigger] outcomes[k]).seat >= 0,
    ensures
        after_outcomes(b, outcomes, pot, n).len() == b.seats.len(),
        counters_agree((Book { seats: after_outcomes(b, outcomes, pot, n), ..b }), i),
        after_outcomes(b, outcomes, pot, n)[i].hands_dealt <= b.seats[i].hands_dealt + n,
    decreases n,
{
    if n > 0 {
        outcomes_keep_agreeing(b, outcomes, pot, i, n - 1);
        assert(outcomes[n - 1].seat >= 0);
    }
}

/// A seat that sat a hand out is invisible: the end of the hand changes none of its
/// counters.
pub proof fn dead_seats_are_invisible(b: Book, hand_id: u64, result: model::Outcome, i: int)
    requires
        0 <= i < b.seats.len(),
        forall|k: int|
            0 <= k < result.seats.len() ==> (#[trigger] result.seats[k]).seat >= 0 && (
            result.seats[k].seat == i ==> result.seats[k].sat_out),
    ensures
        after_event(b, model::Event::HandEnded { hand_id, result }).seats[i] == b.seats[i],
{
    let pot = pot_won(result.seats, result.seats.len() as int);
    dead_seat_unchanged(b, result.seats, pot, i, result.seats.len() as int);
}

proof fn dead_seat_unchanged(b: Book, outcomes: Seq<model::SeatResult>, pot: u64, i: int, n: int)
    requires
        0 <= i < b.seats.len(),
        0 <= n <= outcomes.len(),
        forall|k: int|
            0 <= k < outcomes.len() ==> (#[trigger] outcomes[k]).seat >= 0 && (outcomes[k].seat == i
                ==> outcomes[k].sat_out),
    ensures
        after_outcomes(b, outcomes, pot, n).len() == b.seats.len(),
        after_outcomes(b, outcomes, pot, n)[i] == b.seats[i],
    decreases n,
{
    if n > 0 {
        dead_seat_unchanged(b, outcomes, pot, i, n - 1);
        assert(outcomes[n - 1].seat >= 0);
    }
}

/// The chips won by all seats together.
pub open spec fn net_chips(seats: Seq<SeatStats>, n: int) -> int
    decreases n,
{
    if n <= 0 {
        0
    } else {
        net_chips(seats, n - 1) + seats[n - 1].chip_delta_total
    }
}

/// The deltas of the first `n` outcomes together.
pub open spec fn net_deltas(outcomes: Seq<model::SeatResult>, n: int) -> int
    decreases n,
{
    if n <= 0 {
        0
    } else {
        net_deltas(outcomes, n - 1) + outcomes[n - 1].chip_delta
    }
}

/// Statistics lose no chips: after a hand in which every seat played, and which no
/// seat's total overflows on, the seats' totals together have moved by what the
/// hand's deltas come to. When the hand is zero-sum, so are the totals.
pub proof fn totals_follow_the_chips(b: Book, hand_id: u64, result: model::Outcome)
    requires
        result.seats.len() == b.seats.len(),
        forall|k: int|
            0 <= k < result.seats.len() ==> {
                &&& (#[trigger] result.seats[k]).seat == k
                &&& !result.seats[k].sat_out
                &&& i64::MIN <= result.seats[k].chip_delta <= i64::MAX
                &&& i64::MIN <= b.seats[k].chip_delta_total + result.seats[k].chip_delta <= i64::MAX
            },
    ensures
        net_chips(
            after_event(b, model::Event::HandEnded { hand_id, result }).seats,
            b.seats.len() as int,
        ) == net_chips(b.seats, b.seats.len() as int) + net_deltas(
            result.seats,
            result.seats.len() as int,
        ),
{
    let n = b.seats.len() as int;
    let pot = pot_won(result.seats, n);
    let after = after_outcomes(b, result.seats, pot, n);
    assert forall|k: int| 0 <= k < n implies (#[trigger] after[k]).chip_delta_total
        == b.seats[k].chip_delta_total + result.seats[k].chip_delta by {
        own_outcome_counts(b, result.seats, pot, k, n);
    }
    if n > 0 {
        own_outcome_counts(b, result.seats, pot, 0, n);
    }
    totals_add_up(b.seats, after, result.seats, n);
}

proof fn own_outcome_counts(b: Book, outcomes: Seq<model::SeatResult>, pot: u64, k: int, n: int)
    requires
        outcomes.len() == b.seats.len(),
        0 <= k < b.seats.len(),
        0 <= n <= outcomes.len(),
        forall|j: int|
            0 <= j < outcomes.len() ==> {
                &&& (#[trigger] outcomes[j]).seat == j
                &&& !outcomes[j].sat_out
                &&& i64::MIN <= outcomes[j].chip_delta <= i64::MAX
                &&& i64::MIN <= b.seats[j].chip_delta_total + outcomes[j].chip_delta <= i64::MAX
            },
    ensures
        after_outcomes(b, outcomes, pot, n).len() == b.seats.len(),
        after_outcomes(b, outcomes, pot, n)[k].chip_delta_total == b.seats[k].chip_delta_total + if k
            < n {
            outcomes[k].chip_delta
        } else {
            0
        },
    decreases n,
{
    if n > 0 {
        own_outcome_counts(b, outcomes, pot, k, n - 1);
        assert(outcomes[n - 1].seat == n - 1);
        assert(outcomes[k].seat == k);
    }
}

proof fn totals_add_up(
    before: Seq<SeatStats>,
    after: Seq<SeatStats>,
    outcomes: Seq<model::SeatResult>,
    n: int,
)
    requires
        0 <= n <= before.len(),
        after.len() == before.len(),
        outcomes.len() == before.len(),
        forall|k: int|
            0 <= k < before.len() ==> (#[trigger] after[k]).chip_delta_total
                == before[k].chip_delta_total + outcomes[k].chip_delta,
    ensures
        net_chips(after, n) == net_chips(before, n) + net_deltas(outcomes, n),
    decreases n,
{
    if n > 0 {
        totals_add_up(before, after, outcomes, n - 1);
        assert(after[n - 1].chip_delta_total == before[n - 1].chip_delta_total + outcomes[n
            - 1].chip_delta);
    }
}

/// How many of the first `n` outcomes list seat `i` as live.
pub open spec fn listings(outcomes: Seq<model::SeatResult>, i: int, n: int) -> int
    decreases n,
{
    if n <= 0 {
        0
    } else {
        listings(outcomes, i, n - 1) + (if outcomes[n - 1].seat == i && !outcomes[n - 1].sat_out {
            1int
        } else {
            0
        })
    }
}

/// How often seat `i` is listed as live in the hands that ended among `events`.
pub open spec fn hands_listing(events: Seq<model::Event>, i: int) -> int
    decreases events.len(),
{
    if events.len() == 0 {
        0
    } else {
        hands_listing(events.drop_last(), i) + (match events.last() {
            model::Event::HandEnded { result, .. } => listings(
                result.seats,
                i,
                result.seats.len() as int,
            ),
            _ => 0,
        })
    }
}

proof fn listings_not_negative(outcomes: Seq<model::SeatResult>, i: int, n: int)
    ensures
        0 <= listings(outcomes, i, n),
    decreases n,
{
    if n > 0 {
        listings_not_negative(outcomes, i, n - 1);
    }
}

proof fn outcomes_count_listings(
    b: Book,
    outcomes: Seq<model::SeatResult>,
    pot: u64,
    i: int,
    n: int,
)
    requires
        0 <= i < b.seats.len(),
        0 <= n <= outcomes.len(),
        b.seats[i].hands_dealt + listings(outcomes, i, n) <= u64::MAX,
        forall|k: int| 0 <= k < outcomes.len() ==> (#[trigger] outcomes[k]).seat >= 0,
    ensures
        after_outcomes(b, outcomes, pot, n).len() == b.seats.len(),
        after_outcomes(b, outcomes, pot, n)[i].hands_dealt == b.seats[i].hands_dealt + listings(
            outcomes,
            i,
            n,
        ),
    decreases n,
{
    if n > 0 {
        listings_not_negative(outcomes, i, n - 1);
        outcomes_count_listings(b, outcomes, pot, i, n - 1);
        assert(outcomes[n - 1].seat >= 0);
    }
}

/// A seat's hands are counted: after any events its counter has grown by the number of
/// ended hands that list it as live. Seat 0's counter is the number of hands played.
pub proof fn hands_are_counted(b: Book, events: Seq<model::Event>, i: int)
    requires
        0 <= i < b.seats.len(),
        b.seats[i].hands_dealt + hands_listing(events, i) <= u64::MAX,
        forall|k: int|
            0 <= k < events.len() ==> match #[trigger] events[k] {
                model::Event::ActionTaken { seat, .. } => seat >= 0,
                model::Event::HandEnded { result, .. } => forall|m: int|
                    0 <= m < result.seats.len() ==> (#[trigger] result.seats[m]).seat >= 0,
                _ => true,
            },
    ensures
        after_events(b, events).seats.len() == b.seats.len(),
        after_events(b, events).seats[i].hands_dealt == b.seats[i].hands_dealt + hands_listing(
            events,
            i,
        ),
    decreases events.len(),
{
    if events.len() > 0 {
        let head = events.drop_last();
        assert forall|k: int| 0 <= k < head.len() implies match #[trigger] head[k] {
            model::Event::ActionTaken { seat, .. } => seat >= 0,
            model::Event::HandEnded { result, .. } => forall|m: int|
                0 <= m < result.seats.len() ==> (#[trigger] result.seats[m]).seat >= 0,
            _ => true,
        } by {
            assert(head[k] == events[k]);
        }
        let last = events[events.len() - 1];
        if let model::Event::HandEnded { result, .. } = last {
            listings_not_negative(result.seats, i, result.seats.len() as int);
        }
        hands_are_counted(b, head, i);
        if let model::Event::HandEnded { result, .. } = last {
            let mid = after_events(b, head);
            let pot = pot_won(result.seats, result.seats.len() as int);
            outcomes_count_listings(mid, result.seats, pot, i, result.seats.len() as int);
        }
    }
}

} // verus!
