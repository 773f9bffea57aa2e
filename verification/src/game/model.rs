//! The hand as mathematics: seats, table, betting, dealing and payout as functions.

use vstd::prelude::*;

use crate::cards::Card;
use crate::game::action::Action;
use crate::game::state::{PlayerStatus, Street};

verus! {

/// One player's seat.
#[verifier::ext_equal]
pub struct Seat {
    pub stack: int,
    pub hole: Option<(Card, Card)>,
    /// Chips committed this street.
    pub bet: int,
    /// Chips committed this hand.
    pub committed: int,
    pub status: PlayerStatus,
}

/// The table during a hand.
#[verifier::ext_equal]
pub struct Table {
    pub hand_id: u64,
    pub street: Street,
    pub board: Seq<Card>,
    pub seats: Seq<Seat>,
    /// Chips in the main pot.
    pub main: int,
    /// Side pots: amount and eligible seats.
    pub side: Seq<(u32, Seq<usize>)>,
    pub action_on: Option<usize>,
    pub dealer: usize,
    pub last_aggressor: Option<usize>,
    /// What every player has to match.
    pub current_bet: int,
    /// Size of the last full bet or raise.
    pub increment: int,
    /// Short all-in increments since the last full raise, added up.
    pub short: int,
    pub sat_out: Seq<bool>,
}

/// What one seat took away from a hand.
#[verifier::ext_equal]
pub struct SeatResult {
    pub seat: int,
    pub hole: Option<(Card, Card)>,
    pub chip_delta: int,
    pub sat_out: bool,
}

/// What a hand came to.
#[verifier::ext_equal]
pub struct Outcome {
    pub hand_id: u64,
    pub board: Seq<Card>,
    pub seats: Seq<SeatResult>,
}

/// One moment of a hand.
#[verifier::ext_equal]
pub enum Event {
    HandStarted { hand_id: u64, dealer: usize, deck_seed: u64 },
    HoleCardsDealt { seat: int, hole: (Card, Card) },
    BoardDealt { street: Street, cards: Seq<Card> },
    ActionTaken { seat: int, action: Action, pot_total: int },
    PlayerAllIn { seat: int, total_committed: int },
    HandEnded { hand_id: u64, result: Outcome },
}

/// The sum of the amounts of side pots.
pub open spec fn side_total(side: Seq<(u32, Seq<usize>)>) -> int
    decreases side.len(),
{
    if side.len() == 0 {
        0
    } else {
        side_total(side.drop_last()) + side.last().0
    }
}

/// A prefix of the side pots holds no more than all of them.
pub proof fn side_total_grows(side: Seq<(u32, Seq<usize>)>, n: int)
    requires
        0 <= n <= side.len(),
    ensures
        0 <= side_total(side.take(n)) <= side_total(side),
    decreases side.len(),
{
    if n == side.len() {
        assert(side.take(n) =~= side);
        if n > 0 {
            side_total_grows(side.drop_last(), n - 1);
            assert(side.drop_last().take(n - 1) =~= side.drop_last());
        }
    } else {
        side_total_grows(side.drop_last(), n);
        assert(side.drop_last().take(n) =~= side.take(n));
    }
}

/// The seat has a live hand: it can still win.
pub open spec fn in_play(seat: Seat) -> bool {
    seat.status == PlayerStatus::Active || seat.status == PlayerStatus::AllIn
}

/// Marks the seats that can still win.
pub open spec fn in_play_marks(seats: Seq<Seat>) -> Seq<bool> {
    Seq::new(seats.len(), |i: int| in_play(seats[i]))
}

/// Marks the seats that can still act.
pub open spec fn active_marks(seats: Seq<Seat>) -> Seq<bool> {
    Seq::new(seats.len(), |i: int| seats[i].status == PlayerStatus::Active)
}

/// How many entries are marked.
pub open spec fn count(marks: Seq<bool>) -> int
    decreases marks.len(),
{
    if marks.len() == 0 {
        0
    } else {
        count(marks.drop_last()) + (if marks.last() {
            1int
        } else {
            0
        })
    }
}

/// The positions of the marked entries, in order.
pub open spec fn marked(marks: Seq<bool>) -> Seq<int>
    decreases marks.len(),
{
    if marks.len() == 0 {
        Seq::empty()
    } else if marks.last() {
        marked(marks.drop_last()).push(marks.len() - 1)
    } else {
        marked(marks.drop_last())
    }
}

/// The sum of `xs`.
pub open spec fn total(xs: Seq<int>) -> int
    decreases xs.len(),
{
    if xs.len() == 0 {
        0
    } else {
        total(xs.drop_last()) + xs.last()
    }
}

/// What each seat has bet this street.
pub open spec fn bets(seats: Seq<Seat>) -> Seq<int> {
    Seq::new(seats.len(), |i: int| seats[i].bet)
}

/// What each seat has committed this hand.
pub open spec fn commitments(seats: Seq<Seat>) -> Seq<int> {
    Seq::new(seats.len(), |i: int| seats[i].committed)
}

/// What each seat has left.
pub open spec fn stacks(seats: Seq<Seat>) -> Seq<int> {
    Seq::new(seats.len(), |i: int| seats[i].stack)
}

/// The seats with nothing bet this street.
pub open spec fn cleared(seats: Seq<Seat>) -> Seq<Seat> {
    Seq::new(seats.len(), |i: int| Seat { bet: 0, ..seats[i] })
}

/// Replacing one entry changes the sum by the difference.
pub proof fn total_update(xs: Seq<int>, i: int, v: int)
    requires
        0 <= i < xs.len(),
    ensures
        total(xs.update(i, v)) == total(xs) - xs[i] + v,
    decreases xs.len(),
{
    if i == xs.len() - 1 {
        assert(xs.update(i, v).drop_last() =~= xs.drop_last());
    } else {
        total_update(xs.drop_last(), i, v);
        assert(xs.update(i, v).drop_last() =~= xs.drop_last().update(i, v));
    }
}

/// Where no entry is negative, a prefix sums to no more than the whole, and each
/// entry is at most the sum.
pub proof fn total_bounds(xs: Seq<int>, n: int)
    requires
        0 <= n <= xs.len(),
        forall|i: int| 0 <= i < xs.len() ==> xs[i] >= 0,
    ensures
        0 <= total(xs.take(n)) <= total(xs),
        forall|i: int| 0 <= i < xs.len() ==> xs[i] <= total(xs),
    decreases xs.len(),
{
    if xs.len() > 0 {
        let head = xs.drop_last();
        if n == xs.len() {
            total_bounds(head, n - 1);
            assert(xs.take(n) =~= xs);
            assert(head.take(n - 1) =~= head);
        } else {
            total_bounds(head, n);
            assert(head.take(n) =~= xs.take(n));
        }
        assert forall|i: int| 0 <= i < xs.len() implies xs[i] <= total(xs) by {
            if i < xs.len() - 1 {
                assert(head[i] == xs[i]);
            }
        }
    } else {
        assert(xs.take(n) =~= xs);
    }
}

/// The sum of entrywise sums is the sum of the sums.
pub proof fn total_sum(xs: Seq<int>, ys: Seq<int>, zs: Seq<int>)
    requires
        xs.len() == ys.len() == zs.len(),
        forall|i: int| 0 <= i < zs.len() ==> zs[i] == xs[i] + ys[i],
    ensures
        total(zs) == total(xs) + total(ys),
    decreases xs.len(),
{
    if xs.len() > 0 {
        total_sum(xs.drop_last(), ys.drop_last(), zs.drop_last());
    }
}

/// A sum of zeros.
pub proof fn total_zeros(xs: Seq<int>)
    requires
        forall|i: int| 0 <= i < xs.len() ==> xs[i] == 0,
    ensures
        total(xs) == 0,
    decreases xs.len(),
{
    if xs.len() > 0 {
        total_zeros(xs.drop_last());
    }
}

/// How many entries are marked, and where.
pub proof fn count_bounds(marks: Seq<bool>)
    ensures
        0 <= count(marks) <= marks.len(),
        count(marks) == marked(marks).len(),
        forall|i: int| 0 <= i < marks.len() && marks[i] ==> count(marks) >= 1,
        forall|k: int|
            0 <= k < marked(marks).len() ==> 0 <= (#[trigger] marked(marks)[k]) < marks.len()
                && marks[marked(marks)[k]],
    decreases marks.len(),
{
    if marks.len() > 0 {
        count_bounds(marks.drop_last());
        let head = marks.drop_last();
        assert forall|i: int| 0 <= i < marks.len() && marks[i] implies count(marks) >= 1 by {
            if i < marks.len() - 1 {
                assert(head[i]);
            }
        }
    }
}

/// The positions of marked entries ascend, and no marked entry is missing.
pub proof fn marked_in_order(marks: Seq<bool>)
    ensures
        forall|j: int, k: int|
            0 <= j < k < marked(marks).len() ==> #[trigger] marked(marks)[j] < #[trigger] marked(
                marks,
            )[k],
        forall|i: int| 0 <= i < marks.len() && #[trigger] marks[i] ==> marked(marks).contains(i),
    decreases marks.len(),
{
    if marks.len() > 0 {
        let head = marks.drop_last();
        marked_in_order(head);
        count_bounds(head);
        let m = marked(marks);
        assert forall|i: int| 0 <= i < marks.len() && #[trigger] marks[i] implies m.contains(i) by {
            if i < marks.len() - 1 {
                assert(head[i]);
                let k = marked(head).index_of(i);
                assert(marked(head)[k] == i);
                assert(m[k] == i);
            } else {
                assert(m[m.len() - 1] == i);
            }
        }
    }
}

/// Marking or unmarking one entry changes the count by one.
pub proof fn count_update(marks: Seq<bool>, i: int, v: bool)
    requires
        0 <= i < marks.len(),
    ensures
        count(marks.update(i, v)) == count(marks) - (if marks[i] {
            1int
        } else {
            0
        }) + (if v {
            1int
        } else {
            0
        }),
    decreases marks.len(),
{
    if i == marks.len() - 1 {
        assert(marks.update(i, v).drop_last() =~= marks.drop_last());
    } else {
        count_update(marks.drop_last(), i, v);
        assert(marks.update(i, v).drop_last() =~= marks.drop_last().update(i, v));
    }
}

} // verus!
