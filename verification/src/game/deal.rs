//! How a hand opens: antes, blinds, cards, and who is asked first.

use vstd::prelude::*;

use crate::cards::{deck, Card};
use crate::game::hand;
use crate::game::hand::{Phase, Setup};
use crate::game::model;
use crate::game::model::{Event, Seat, Table};
use crate::game::play;
use crate::game::progress;
use crate::game::soundness;
use crate::game::state::{PlayerStatus, SeatKind, Street};

verus! {

/// Marks the seats that bring chips.
pub open spec fn who_has_chips(s: Setup) -> Seq<bool> {
    Seq::new(s.stacks.len(), |i: int| s.stacks[i] > 0)
}

/// What a seat that is due `amount` puts in: all of it, or all it has.
pub open spec fn as_far_as(stack: u32, amount: int) -> int {
    if amount < stack {
        amount
    } else {
        stack as int
    }
}

/// A seat of `s` that has put in `put` and nothing else has happened to.
pub open spec fn has_put_in(s: Setup, p: Seat, i: int, put: int) -> bool {
    &&& p.committed == put
    &&& p.bet == put
    &&& p.stack == s.stacks[i] - put
    &&& p.hole is None
    &&& s.stacks[i] == 0 ==> p.status == PlayerStatus::Out
    &&& s.stacks[i] > 0 && p.stack > 0 ==> p.status == PlayerStatus::Active
    &&& s.stacks[i] > 0 && p.stack == 0 ==> p.status == PlayerStatus::AllIn
}

proof fn antes_are_paid(s: Setup, ante: int, n: int)
    requires
        0 <= ante,
        0 <= n <= s.stacks.len(),
    ensures
        ({
            let t = hand::with_antes(hand::fresh_table(s), ante, n).0;
            &&& t == (Table { seats: t.seats, ..hand::fresh_table(s) })
            &&& t.seats.len() == s.stacks.len()
            &&& forall|i: int|
                0 <= i < s.stacks.len() ==> has_put_in(
                    s,
                    #[trigger] t.seats[i],
                    i,
                    if i < n {
                        as_far_as(s.stacks[i], ante)
                    } else {
                        0
                    },
                )
        }),
    decreases n,
{
    if n > 0 {
        antes_are_paid(s, ante, n - 1);
        let t1 = hand::with_antes(hand::fresh_table(s), ante, n - 1).0;
        let t = hand::with_antes(hand::fresh_table(s), ante, n).0;
        assert(has_put_in(s, t1.seats[n - 1], n - 1, 0));
        assert forall|i: int| 0 <= i < s.stacks.len() implies has_put_in(
            s,
            #[trigger] t.seats[i],
            i,
            if i < n {
                as_far_as(s.stacks[i], ante)
            } else {
                0
            },
        ) by {
            if i != n - 1 {
                assert(has_put_in(
                    s,
                    t1.seats[i],
                    i,
                    if i < n - 1 {
                        as_far_as(s.stacks[i], ante)
                    } else {
                        0
                    },
                ));
                assert(t.seats[i] == t1.seats[i]);
            }
        }
    }
}

/// The table before the blinds: everybody has paid the ante.
proof fn everybody_antes(s: Setup)
    ensures
        ({
            let t = progress::before_blinds(s);
            &&& t == (Table { seats: t.seats, ..hand::fresh_table(s) })
            &&& t.seats.len() == s.stacks.len()
            &&& forall|i: int|
                0 <= i < s.stacks.len() ==> has_put_in(
                    s,
                    #[trigger] t.seats[i],
                    i,
                    as_far_as(s.stacks[i], s.rules.ante as int),
                )
            &&& model::in_play_marks(t.seats) == who_has_chips(s)
        }),
{
    let n = s.stacks.len() as int;
    antes_are_paid(s, s.rules.ante as int, n);
    let t = progress::before_blinds(s);
    assert forall|i: int| 0 <= i < n implies has_put_in(
        s,
        #[trigger] t.seats[i],
        i,
        as_far_as(s.stacks[i], s.rules.ante as int),
    ) by {
        if s.rules.ante > 0 {
            let u = hand::with_antes(hand::fresh_table(s), s.rules.ante as int, n).0;
            assert(has_put_in(s, u.seats[i], i, as_far_as(s.stacks[i], s.rules.ante as int)));
        }
    }
    assert forall|i: int| 0 <= i < n implies model::in_play_marks(t.seats)[i] == who_has_chips(
        s,
    )[i] by {
        assert(has_put_in(s, t.seats[i], i, as_far_as(s.stacks[i], s.rules.ante as int)));
    }
    assert(model::in_play_marks(t.seats) =~= who_has_chips(s));
}

/// `sb` and `bb` are the seats of the blinds. With two players the dealer is the small
/// blind and the other one the big blind; with more, or where the dealer has no chips,
/// they are the nearest two seats with chips left of the dealer.
pub open spec fn blinds_at(s: Setup, sb: int, bb: int) -> bool {
    let chips = who_has_chips(s);
    &&& 0 <= sb < s.stacks.len() && 0 <= bb < s.stacks.len() && sb != bb
    &&& chips[sb] && chips[bb]
    &&& s.dealer < s.stacks.len()
    &&& if chips[s.dealer as int] && (forall|i: int|
        0 <= i < chips.len() && i != sb && i != bb ==> !(#[trigger] chips[i])) {
        sb == s.dealer
    } else {
        &&& exists|k: int|
            #[trigger] play::nearest(chips, s.dealer as int, k) && sb == (s.dealer + k) % (
            chips.len() as int)
        &&& exists|k: int|
            #[trigger] play::nearest(chips, sb, k) && bb == (sb + k) % (chips.len() as int)
    }
}

/// Two marked entries and no other are counted as two.
proof fn count_of_two(marks: Seq<bool>, i: int, j: int)
    requires
        0 <= i < marks.len(),
        0 <= j < marks.len(),
        i != j,
        marks[i],
        marks[j],
    ensures
        (forall|k: int| 0 <= k < marks.len() && k != i && k != j ==> !(#[trigger] marks[k]))
            <==> model::count(marks) == 2,
        model::count(marks) >= 2,
{
    let a = marks.update(i, false);
    let b = a.update(j, false);
    model::count_update(marks, i, false);
    model::count_update(a, j, false);
    soundness::none_marked_counts_zero(b);
    model::count_bounds(b);
    if forall|k: int| 0 <= k < marks.len() && k != i && k != j ==> !(#[trigger] marks[k]) {
        assert forall|k: int| 0 <= k < b.len() implies !b[k] by {
            if k != i && k != j {
                assert(!marks[k]);
            }
        }
    }
    if model::count(marks) == 2 {
        assert forall|k: int| 0 <= k < marks.len() && k != i && k != j implies !(
        #[trigger] marks[k]) by {
            assert(!b[k]);
        }
    }
}

/// The only other marked seat is the nearest one.
proof fn the_other_is_nearest(marks: Seq<bool>, from: int, other: int)
    requires
        0 <= from < marks.len(),
        0 <= other < marks.len(),
        other != from,
        marks[other],
        forall|k: int| 0 <= k < marks.len() && k != from && k != other ==> !(#[trigger] marks[k]),
    ensures
        hand::next_marked(marks, from, 1) == Some(other),
{
    let n = marks.len() as int;
    let d = if other > from {
        other - from
    } else {
        other - from + n
    };
    assert((from + d) % n == other) by {
        if other > from {
            vstd::arithmetic::div_mod::lemma_small_mod(other as nat, n as nat);
        } else {
            vstd::arithmetic::div_mod::lemma_mod_add_multiples_vanish(other, n);
            vstd::arithmetic::div_mod::lemma_small_mod(other as nat, n as nat);
        }
    }
    assert forall|j: int| 1 <= j < d implies !(#[trigger] marks[(from + j) % n]) by {
        let x = from + j;
        if x < n {
            vstd::arithmetic::div_mod::lemma_small_mod(x as nat, n as nat);
        } else {
            vstd::arithmetic::div_mod::lemma_mod_add_multiples_vanish(x - n, n);
            vstd::arithmetic::div_mod::lemma_small_mod((x - n) as nat, n as nat);
        }
        assert(x % n != from && x % n != other);
    }
    assert(play::nearest(marks, from, d));
    play::search_finds_the_nearest(marks, from);
}

proof fn blind_seats_are(s: Setup, sb: int, bb: int)
    requires
        progress::seating_ok(s),
        blinds_at(s, sb, bb),
    ensures
        hand::small_blind_seat(progress::before_blinds(s)) == sb,
        hand::big_blind_seat(progress::before_blinds(s)) == bb,
{
    let t = progress::before_blinds(s);
    let chips = who_has_chips(s);
    everybody_antes(s);
    count_of_two(chips, sb, bb);
    let d = s.dealer as int;
    if chips[d] && (forall|i: int|
        0 <= i < chips.len() && i != sb && i != bb ==> !(#[trigger] chips[i])) {
        assert(model::in_play_marks(t.seats)[d]);
        the_other_is_nearest(chips, d, bb);
    } else {
        assert(!hand::heads_up(t)) by {
            if hand::heads_up(t) {
                assert(model::in_play_marks(t.seats)[d]);
            }
        }
        play::search_finds_the_nearest(chips, d);
        play::search_finds_the_nearest(chips, sb);
    }
}

/// What is due at the opening: the ante of everybody who brings chips, and the blinds.
pub open spec fn due(s: Setup, sb: int, bb: int, i: int) -> int {
    s.rules.ante + if i == sb {
        s.rules.small_blind as int
    } else if i == bb {
        s.rules.big_blind as int
    } else {
        0
    }
}

proof fn blinds_are_paid(s: Setup, sb: int, bb: int)
    requires
        progress::seating_ok(s),
        blinds_at(s, sb, bb),
    ensures
        ({
            let t = progress::after_blinds(s);
            &&& t.seats.len() == s.stacks.len()
            &&& t.current_bet == s.rules.big_blind
            &&& t.increment == s.rules.big_blind
            &&& t.dealer == s.dealer
            &&& t.sat_out == Seq::new(s.stacks.len(), |i: int| false)
            &&& forall|i: int|
                0 <= i < s.stacks.len() ==> has_put_in(
                    s,
                    #[trigger] t.seats[i],
                    i,
                    as_far_as(s.stacks[i], due(s, sb, bb, i)),
                )
            &&& model::in_play_marks(t.seats) == who_has_chips(s)
        }),
{
    blind_seats_are(s, sb, bb);
    everybody_antes(s);
    let b = progress::before_blinds(s);
    let t = progress::after_blinds(s);
    assert forall|i: int| 0 <= i < s.stacks.len() implies has_put_in(
        s,
        #[trigger] t.seats[i],
        i,
        as_far_as(s.stacks[i], due(s, sb, bb, i)),
    ) by {
        assert(has_put_in(s, b.seats[i], i, as_far_as(s.stacks[i], s.rules.ante as int)));
    }
    assert forall|i: int| 0 <= i < s.stacks.len() implies model::in_play_marks(t.seats)[i]
        == who_has_chips(s)[i] by {
        assert(has_put_in(s, t.seats[i], i, as_far_as(s.stacks[i], due(s, sb, bb, i))));
    }
    assert(model::in_play_marks(t.seats) =~= who_has_chips(s));
}

/// How a hand opens. Everybody who brings chips pays the ante and the blinds pay theirs on
/// top, each as far as their chips go; nobody else pays anything. The bet to match and the
/// least raise are the big blind. Dead hands are folded and flagged, the others are in.
/// The nearest player left of the big blind who can act is asked first.
#[verifier::spinoff_prover]
pub proof fn hands_open_with_the_blinds(s: Setup, sb: int, bb: int, k: int)
    requires
        progress::setup_ok(s),
        deck::full_deck(deck::shuffled(s.deck_seed)),
        blinds_at(s, sb, bb),
    ensures
        ({
            let t = hand::opening_table(s);
            let node = hand::opened(s).node;
            &&& t.seats.len() == s.stacks.len()
            &&& t.street == Street::Preflop && t.board.len() == 0
            &&& t.current_bet == s.rules.big_blind
            &&& t.increment == s.rules.big_blind
            &&& forall|i: int|
                0 <= i < s.stacks.len() ==> {
                    let p = #[trigger] t.seats[i];
                    let dead = s.kinds is Some && (s.kinds->0)[i] == SeatKind::DeadHand;
                    &&& p.committed == as_far_as(s.stacks[i], due(s, sb, bb, i))
                    &&& p.bet == p.committed
                    &&& p.stack == s.stacks[i] - p.committed
                    &&& s.stacks[i] == 0 <==> p.status == PlayerStatus::Out
                    &&& s.stacks[i] > 0 && dead <==> p.status == PlayerStatus::Folded
                    &&& s.stacks[i] > 0 && !dead && p.stack > 0 <==> p.status
                        == PlayerStatus::Active
                    &&& t.sat_out[i] <==> s.stacks[i] > 0 && dead
                }
            &&& play::nearest(play::who_can_act(t), bb, k) ==> {
                &&& node.phase == (Phase::Decision {
                    seat: (bb + k) % (s.stacks.len() as int),
                    responded: Seq::new(s.stacks.len(), |i: int| false),
                })
                &&& node.table.seats == t.seats
                &&& node.table.current_bet == t.current_bet
                &&& node.table.increment == t.increment
            }
        }),
{
    progress::dealt_in_is_sound(s);
    blinds_are_paid(s, sb, bb);
    blind_seats_are(s, sb, bb);
    let order = deck::shuffled(s.deck_seed);
    let b = progress::after_blinds(s);
    let (t3, dealt, notes) = hand::dealt_in(s);
    progress::holes_take_two_each(b, order, s.stacks.len() as int);
    let t = hand::opening_table(s);
    assert forall|i: int| 0 <= i < s.stacks.len() implies {
        let p = #[trigger] t.seats[i];
        let dead = s.kinds is Some && (s.kinds->0)[i] == SeatKind::DeadHand;
        &&& p.committed == as_far_as(s.stacks[i], due(s, sb, bb, i))
        &&& p.bet == p.committed
        &&& p.stack == s.stacks[i] - p.committed
        &&& s.stacks[i] == 0 <==> p.status == PlayerStatus::Out
        &&& s.stacks[i] > 0 && dead <==> p.status == PlayerStatus::Folded
        &&& s.stacks[i] > 0 && !dead && p.stack > 0 <==> p.status == PlayerStatus::Active
        &&& t.sat_out[i] <==> s.stacks[i] > 0 && dead
    } by {
        assert(has_put_in(s, b.seats[i], i, as_far_as(s.stacks[i], due(s, sb, bb, i))));
        assert(t3.seats[i] == (Seat { hole: t3.seats[i].hole, ..b.seats[i] }));
    }
    // The big blind of the table with the cards out is that before the blinds.
    assert(model::in_play_marks(t3.seats) =~= who_has_chips(s));
    let b0 = progress::before_blinds(s);
    everybody_antes(s);
    assert(hand::heads_up(t3) == hand::heads_up(b0)) by {
        assert(model::in_play_marks(t3.seats) == model::in_play_marks(b0.seats));
        let d = s.dealer as int;
        assert(model::in_play_marks(t3.seats)[d] == model::in_play(t3.seats[d]));
        assert(model::in_play_marks(b0.seats)[d] == model::in_play(b0.seats[d]));
    }
    assert(hand::big_blind_seat(t3) == bb);
    let can = play::who_can_act(t);
    assert(can =~= model::active_marks(t.seats));
    play::search_finds_the_nearest(can, bb);
    count_of_two(who_has_chips(s), sb, bb);
    assert(hand::funded(s.stacks) =~= who_has_chips(s));
    assert(hand::none_marked(t.seats.len()) =~= Seq::new(s.stacks.len(), |i: int| false));
}

// ---------------------------------------------------------------------------
// Cards
// ---------------------------------------------------------------------------

/// How many of the seats below `i` bring chips.
pub open spec fn dealt_before(s: Setup, i: int) -> int {
    model::count(who_has_chips(s).take(i))
}

proof fn holes_in_turn(t: Table, order: Seq<Card>, n: int)
    requires
        0 <= n <= t.seats.len(),
        forall|i: int| 0 <= i < t.seats.len() ==> (#[trigger] t.seats[i]).hole is None,
    ensures
        ({
            let marks = model::in_play_marks(t.seats);
            let (u, d, notes) = hand::with_holes(t, order, 0, n);
            &&& d == 2 * model::count(marks.take(n))
            &&& u.seats.len() == t.seats.len()
            &&& notes.len() == model::count(marks.take(n))
            &&& forall|i: int|
                0 <= i < t.seats.len() ==> {
                    let c = 2 * model::count(marks.take(i));
                    if i < n && marks[i] {
                        &&& (#[trigger] u.seats[i]).hole == Some((order[c], order[c + 1]))
                        &&& 0 <= model::count(marks.take(i)) < notes.len()
                        &&& notes[model::count(marks.take(i))] == (Event::HoleCardsDealt {
                            seat: i,
                            hole: (order[c], order[c + 1]),
                        })
                    } else {
                        u.seats[i].hole is None
                    }
                }
        }),
    decreases n,
{
    let marks = model::in_play_marks(t.seats);
    progress::holes_take_two_each(t, order, n);
    if n > 0 {
        holes_in_turn(t, order, n - 1);
        progress::holes_take_two_each(t, order, n - 1);
        let (t1, d1, notes1) = hand::with_holes(t, order, 0, n - 1);
        let (u, d, notes) = hand::with_holes(t, order, 0, n);
        assert(marks.take(n).drop_last() =~= marks.take(n - 1));
        assert(t1.seats[n - 1] == (Seat { hole: t1.seats[n - 1].hole, ..t.seats[n - 1] }));
        model::count_bounds(marks.take(n - 1));
        assert forall|i: int| 0 <= i < t.seats.len() implies {
            let c = 2 * model::count(marks.take(i));
            if i < n && marks[i] {
                &&& (#[trigger] u.seats[i]).hole == Some((order[c], order[c + 1]))
                &&& 0 <= model::count(marks.take(i)) < notes.len()
                &&& notes[model::count(marks.take(i))] == (Event::HoleCardsDealt {
                    seat: i,
                    hole: (order[c], order[c + 1]),
                })
            } else {
                u.seats[i].hole is None
            }
        } by {
            assert(t1.seats[i] == (Seat { hole: t1.seats[i].hole, ..t.seats[i] }));
            if i != n - 1 {
                assert(u.seats[i] == t1.seats[i]);
            }
        }
    } else {
        assert(marks.take(0) =~= Seq::<bool>::empty());
    }
}

/// How the cards are dealt: from the top of the shuffled deck two to each seat that brings
/// chips, in the order of the seats, and none to the others. Each deal is announced with
/// the seat and its cards.
#[verifier::rlimit(40)]
#[verifier::spinoff_prover]
pub proof fn cards_are_dealt_in_turn(s: Setup, sb: int, bb: int, i: int)
    requires
        progress::setup_ok(s),
        deck::full_deck(deck::shuffled(s.deck_seed)),
        blinds_at(s, sb, bb),
        0 <= i < s.stacks.len(),
    ensures
        ({
            let order = deck::shuffled(s.deck_seed);
            let t = hand::opening_table(s);
            let c = 2 * dealt_before(s, i);
            let events = hand::opened(s).events;
            &&& s.stacks[i] > 0 ==> {
                &&& t.seats[i].hole == Some((order[c], order[c + 1]))
                &&& events.contains(
                    Event::HoleCardsDealt { seat: i, hole: (order[c], order[c + 1]) },
                )
            }
            &&& s.stacks[i] == 0 ==> t.seats[i].hole is None
            &&& hand::opened(s).node.dealt == 2 * dealt_before(s, s.stacks.len() as int)
        }),
{
    progress::dealt_in_is_sound(s);
    blinds_are_paid(s, sb, bb);
    let order = deck::shuffled(s.deck_seed);
    let b = progress::after_blinds(s);
    let n = s.stacks.len() as int;
    assert forall|j: int| 0 <= j < b.seats.len() implies (#[trigger] b.seats[j]).hole is None by {
        assert(has_put_in(s, b.seats[j], j, as_far_as(s.stacks[j], due(s, sb, bb, j))));
    }
    holes_in_turn(b, order, n);
    let (u, d, notes) = hand::with_holes(b, order, 0, n);
    let t = hand::opening_table(s);
    assert(u.seats[i].hole == t.seats[i].hole);
    if s.stacks[i] > 0 {
        let marks = model::in_play_marks(b.seats);
        deals_are_announced(s, model::count(marks.take(i)));
    }
}

/// The announcements of the deal come at the end of the opening.
proof fn deals_are_announced(s: Setup, k: int)
    requires
        ({
            let notes = hand::with_holes(
                progress::after_blinds(s),
                deck::shuffled(s.deck_seed),
                0,
                s.stacks.len() as int,
            ).2;
            0 <= k < notes.len()
        }),
    ensures
        hand::opened(s).events.contains(
            hand::with_holes(
                progress::after_blinds(s),
                deck::shuffled(s.deck_seed),
                0,
                s.stacks.len() as int,
            ).2[k],
        ),
{
    let notes = hand::with_holes(
        progress::after_blinds(s),
        deck::shuffled(s.deck_seed),
        0,
        s.stacks.len() as int,
    ).2;
    let e1 = if s.rules.ante > 0 {
        hand::with_antes(hand::fresh_table(s), s.rules.ante as int, s.stacks.len() as int).1
    } else {
        Seq::empty()
    };
    let e2 = hand::with_blinds(progress::before_blinds(s), s.rules).1;
    let dealt = hand::dealt_in(s).2;
    assert(dealt == e1 + e2 + notes);
    let events = hand::opened(s).events;
    assert(events == hand::opening_events(s));
    assert(events[1 + e1.len() + e2.len() + k] == notes[k]);
}

} // verus!
