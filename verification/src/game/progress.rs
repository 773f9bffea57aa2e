//! Every step of a hand keeps it in good order.

use vstd::prelude::*;

use crate::cards::{deck, Card, HandEvaluator};
use crate::game::action::Action;
use crate::game::hand;
use crate::game::hand::{Next, Node, Phase, Setup, CHIP_LIMIT};
use crate::game::model;
use crate::game::model::{Seat, Table};
use crate::game::pot_calc;
use crate::game::rules::BettingRules;
use crate::game::soundness;
use crate::game::state::{PlayerStatus, SeatKind, Street};

verus! {

// ---------------------------------------------------------------------------
// Opening
// ---------------------------------------------------------------------------

/// A table that can be seated: there are seats, a seat for the blinds, and chips that
/// the counting can hold.
pub open spec fn seating_ok(s: Setup) -> bool {
    &&& 1 <= s.stacks.len()
    &&& s.dealer + s.stacks.len() <= usize::MAX
    &&& 2 * s.stacks.len() <= usize::MAX
    &&& s.kinds matches Some(k) ==> k.len() == s.stacks.len()
    &&& model::total(starting_stacks(s)) <= CHIP_LIMIT
    &&& s.rules.big_blind <= CHIP_LIMIT
    &&& s.dealer < s.stacks.len() || exists|i: int|
        0 <= i < s.stacks.len() && #[trigger] s.stacks[i] > 0
}

/// What a hand asks of its setup: seats that can be numbered and chips within the
/// limit; somebody to take the blinds and somebody live to play the hand; and cards
/// for all who are dealt in and for the board.
pub open spec fn setup_ok(s: Setup) -> bool {
    &&& seating_ok(s)
    &&& hand::dealt_in(s).1 + 5 <= 52
    &&& hand::still_in(hand::opening_table(s)) >= 1
}

/// The stacks as mathematical numbers.
pub open spec fn starting_stacks(s: Setup) -> Seq<int> {
    Seq::new(s.stacks.len(), |i: int| s.stacks[i] as int)
}

/// The chips that a seat brought: what it has and what it put in.
pub open spec fn brought(p: Seat) -> int {
    p.stack + p.committed
}

/// The chips and the seating of a table in its opening, before the cards are out.
pub open spec fn opening_sound(t: Table, s: Setup) -> bool {
    &&& soundness::seating_sound(t)
    &&& t.seats.len() == s.stacks.len()
    &&& soundness::chips_sound(t)
    &&& t.main == 0 && t.side == Seq::<(u32, Seq<usize>)>::empty()
    &&& t.board == Seq::<Card>::empty()
    &&& t.street == Street::Preflop
    &&& t.short == 0
    &&& t.dealer == s.dealer && t.hand_id == s.hand_id
    &&& forall|i: int|
        0 <= i < t.seats.len() ==> {
            &&& (#[trigger] t.seats[i]).bet == t.seats[i].committed
            &&& brought(t.seats[i]) == s.stacks[i]
            &&& t.seats[i].status != PlayerStatus::Folded
        }
}

/// The fresh table is in order.
pub proof fn fresh_is_sound(s: Setup)
    requires
        seating_ok(s),
    ensures
        opening_sound(hand::fresh_table(s), s),
        s.dealer < s.stacks.len() || hand::still_in(hand::fresh_table(s)) >= 1,
{
    let t = hand::fresh_table(s);
    assert(model::stacks(t.seats) =~= starting_stacks(s));
    model::total_zeros(model::commitments(t.seats));
    if s.dealer >= s.stacks.len() {
        let i = choose|i: int| 0 <= i < s.stacks.len() && #[trigger] s.stacks[i] > 0;
        assert(model::in_play_marks(t.seats)[i]);
        soundness::none_marked_counts_zero(model::in_play_marks(t.seats));
    }
}

/// Posting keeps the table in order, and nobody leaves the hand by it.
pub proof fn posting_is_sound(t: Table, s: Setup, i: int, amount: int)
    requires
        opening_sound(t, s),
        0 <= i < t.seats.len(),
        0 <= amount,
    ensures
        opening_sound(hand::posted(t, i, amount), s),
        forall|j: int|
            0 <= j < t.seats.len() && model::in_play(#[trigger] t.seats[j]) ==> model::in_play(
                hand::posted(t, i, amount).seats[j],
            ),
        hand::still_in(t) >= 1 ==> hand::still_in(hand::posted(t, i, amount)) >= 1,
        hand::posted(t, i, amount).current_bet == t.current_bet,
        hand::posted(t, i, amount).increment == t.increment,
{
    let u = hand::posted(t, i, amount);
    let p = u.seats[i];
    assert(soundness::seat_sound(t.seats[i]));
    soundness::with_seat_totals(t, i, p);
    assert forall|j: int| 0 <= j < u.seats.len() implies soundness::seat_sound(
        #[trigger] u.seats[j],
    ) by {
        assert(soundness::seat_sound(t.seats[j]));
    }
    assert forall|j: int| 0 <= j < u.seats.len() implies {
        &&& (#[trigger] u.seats[j]).bet == u.seats[j].committed
        &&& brought(u.seats[j]) == s.stacks[j]
        &&& u.seats[j].status != PlayerStatus::Folded
    } by {
        assert(t.seats[j].bet == t.seats[j].committed);
    }
    if hand::still_in(t) >= 1 {
        soundness::none_marked_counts_zero(model::in_play_marks(t.seats));
        let j = choose|j: int|
            0 <= j < t.seats.len() && #[trigger] model::in_play_marks(t.seats)[j];
        assert(model::in_play(t.seats[j]));
        assert(model::in_play_marks(u.seats)[j]);
        soundness::none_marked_counts_zero(model::in_play_marks(u.seats));
    }
}

/// Antes keep the table in order.
pub proof fn antes_are_sound(t: Table, s: Setup, ante: int, n: int)
    requires
        opening_sound(t, s),
        0 <= ante,
        0 <= n <= t.seats.len(),
    ensures
        opening_sound(hand::with_antes(t, ante, n).0, s),
        hand::still_in(t) >= 1 ==> hand::still_in(hand::with_antes(t, ante, n).0) >= 1,
        hand::with_antes(t, ante, n).0.increment == t.increment,
    decreases n,
{
    if n > 0 {
        antes_are_sound(t, s, ante, n - 1);
        posting_is_sound(hand::with_antes(t, ante, n - 1).0, s, n - 1, ante);
    }
}

/// The table before the blinds.
pub open spec fn before_blinds(s: Setup) -> Table {
    if s.rules.ante > 0 {
        hand::with_antes(
            hand::fresh_table(s),
            s.rules.ante as int,
            s.stacks.len() as int,
        ).0
    } else {
        hand::fresh_table(s)
    }
}

/// The table before the blinds is in order, and there is a seat for the blinds.
pub proof fn before_blinds_is_sound(s: Setup)
    requires
        seating_ok(s),
    ensures
        opening_sound(before_blinds(s), s),
        s.dealer < s.stacks.len() || hand::still_in(before_blinds(s)) >= 1,
{
    fresh_is_sound(s);
    antes_are_sound(
        hand::fresh_table(s),
        s,
        s.rules.ante as int,
        s.stacks.len() as int,
    );
}

/// Both blinds find a seat.
pub proof fn blind_seats(t: Table)
    requires
        soundness::seating_sound(t),
        t.dealer < t.seats.len() || hand::still_in(t) >= 1,
    ensures
        0 <= hand::small_blind_seat(t) < t.seats.len(),
        0 <= hand::big_blind_seat(t) < t.seats.len(),
        hand::still_in(t) >= 1 ==> model::in_play(t.seats[hand::small_blind_seat(t)])
            && model::in_play(t.seats[hand::big_blind_seat(t)]),
        hand::still_in(t) == 0 ==> hand::small_blind_seat(t) == t.dealer
            && hand::big_blind_seat(t) == t.dealer,
        hand::heads_up(t) ==> hand::small_blind_seat(t) == t.dealer,
{
    let marks = model::in_play_marks(t.seats);
    soundness::none_marked_counts_zero(marks);
    soundness::next_marked_finds(marks, t.dealer as int);
    soundness::next_marked_finds(marks, hand::small_blind_seat(t));
}

/// The table after the blinds.
pub open spec fn after_blinds(s: Setup) -> Table {
    hand::with_blinds(before_blinds(s), s.rules).0
}

/// The table after the blinds is in order, and somebody is in play.
pub proof fn after_blinds_is_sound(s: Setup)
    requires
        seating_ok(s),
    ensures
        opening_sound(after_blinds(s), s),
        after_blinds(s).current_bet == s.rules.big_blind,
        after_blinds(s).increment == s.rules.big_blind,
        hand::still_in(after_blinds(s)) >= 1,
        forall|i: int|
            0 <= i < s.stacks.len() ==> (#[trigger] after_blinds(s).seats[i]).hole == before_blinds(
                s,
            ).seats[i].hole,
{
    before_blinds_is_sound(s);
    let t = before_blinds(s);
    blind_seats(t);
    let sb = hand::small_blind_seat(t);
    let bb = hand::big_blind_seat(t);
    posting_is_sound(t, s, sb, s.rules.small_blind as int);
    let t1 = hand::posted(t, sb, s.rules.small_blind as int);
    posting_is_sound(t1, s, bb, s.rules.big_blind as int);
    let t2 = hand::posted(t1, bb, s.rules.big_blind as int);
    let u = after_blinds(s);
    assert(u.seats == t2.seats);
    if hand::still_in(t) == 0 {
        // Nobody has chips: the dealer posts nothing and is all-in for nothing.
        soundness::none_marked_counts_zero(model::in_play_marks(t.seats));
        assert(soundness::seat_sound(t.seats[bb]));
        assert(!model::in_play_marks(t.seats)[bb]);
        assert(t.seats[bb].status == PlayerStatus::Out);
        assert(model::in_play(u.seats[bb]));
        assert(model::in_play_marks(u.seats)[bb]);
        soundness::none_marked_counts_zero(model::in_play_marks(u.seats));
    } else {
        soundness::none_marked_counts_zero(model::in_play_marks(t.seats));
    }
}


/// Dealing hole cards changes no chips and no status, and gives every seat in play
/// among the first `n` two cards of its own.
pub proof fn holes_are_sound(t: Table, order: Seq<Card>, dealt: int, n: int)
    requires
        0 <= n <= t.seats.len(),
        0 <= dealt,
        deck::full_deck(order),
        t.board == Seq::<Card>::empty(),
        hand::with_holes(t, order, dealt, n).1 <= 52,
    ensures
        ({
            let (u, d, notes) = hand::with_holes(t, order, dealt, n);
            &&& u == (Table { seats: u.seats, ..t })
            &&& u.seats.len() == t.seats.len()
            &&& d == dealt + 2 * model::count(model::in_play_marks(t.seats).take(n))
            &&& forall|i: int|
                0 <= i < t.seats.len() ==> #[trigger] u.seats[i] == (Seat {
                    hole: u.seats[i].hole,
                    ..t.seats[i]
                })
            &&& forall|i: int|
                n <= i < t.seats.len() ==> #[trigger] u.seats[i] == t.seats[i]
            &&& forall|i: int|
                0 <= i < n && model::in_play(#[trigger] u.seats[i]) ==> {
                    &&& u.seats[i].hole is Some
                    &&& soundness::dealt_cards(hand::seven(u, i), order, d)
                }
        }),
    decreases n,
{
    let marks = model::in_play_marks(t.seats);
    if n > 0 {
        let (t1, d1, notes1) = hand::with_holes(t, order, dealt, n - 1);
        let (u, d, notes) = hand::with_holes(t, order, dealt, n);
        assert(d1 <= 52);
        holes_are_sound(t, order, dealt, n - 1);
        assert(marks.take(n).drop_last() =~= marks.take(n - 1));
        soundness::count_prefix(marks, n - 1);
        assert(t1.seats[n - 1] == t.seats[n - 1]);
        if model::in_play(t1.seats[n - 1]) {
            let mine = hand::seven(u, n - 1);
            assert(mine =~= seq![order[d1], order[d1 + 1]]);
            assert forall|k: int| 0 <= k < mine.len() implies order.take(d).contains(
                #[trigger] mine[k],
            ) by {
                assert(order.take(d)[d1 + k] == mine[k]);
            }
        }
        assert forall|i: int| 0 <= i < n && model::in_play(#[trigger] u.seats[i]) implies {
            &&& u.seats[i].hole is Some
            &&& soundness::dealt_cards(hand::seven(u, i), order, d)
        } by {
            if i < n - 1 {
                assert(model::in_play(t1.seats[i]));
                assert(hand::seven(u, i) =~= hand::seven(t1, i));
                let mine = hand::seven(u, i);
                assert forall|k: int| 0 <= k < mine.len() implies order.take(d).contains(
                    #[trigger] mine[k],
                ) by {
                    assert(order.take(d1).contains(hand::seven(t1, i)[k]));
                    let x = choose|x: int| 0 <= x < d1 && order.take(d1)[x] == mine[k];
                    assert(order.take(d)[x] == mine[k]);
                }
            }
        }
    } else {
        assert(marks.take(0) =~= Seq::<bool>::empty());
    }
}

/// Dealing hole cards takes two for each seat in play and changes nothing but them.
pub proof fn holes_take_two_each(t: Table, order: Seq<Card>, n: int)
    requires
        0 <= n <= t.seats.len(),
    ensures
        ({
            let (u, d, notes) = hand::with_holes(t, order, 0, n);
            &&& d == 2 * model::count(model::in_play_marks(t.seats).take(n))
            &&& u == (Table { seats: u.seats, ..t })
            &&& u.seats.len() == t.seats.len()
            &&& forall|i: int|
                0 <= i < t.seats.len() ==> #[trigger] u.seats[i] == (Seat {
                    hole: u.seats[i].hole,
                    ..t.seats[i]
                })
        }),
    decreases n,
{
    let marks = model::in_play_marks(t.seats);
    if n > 0 {
        holes_take_two_each(t, order, n - 1);
        assert(marks.take(n).drop_last() =~= marks.take(n - 1));
        let (t1, d1, notes1) = hand::with_holes(t, order, 0, n - 1);
        assert(t1.seats[n - 1] == (Seat { hole: t1.seats[n - 1].hole, ..t.seats[n - 1] }));
    } else {
        assert(marks.take(0) =~= Seq::<bool>::empty());
    }
}

/// The opening table, before dead hands are folded, is sound, and so are its cards.
pub proof fn dealt_in_is_sound(s: Setup)
    requires
        setup_ok(s),
        deck::full_deck(deck::shuffled(s.deck_seed)),
    ensures
        ({
            let (t, dealt, notes) = hand::dealt_in(s);
            &&& opening_sound(t, s)
            &&& soundness::table_sound(t)
            &&& soundness::cards_sound(t, deck::shuffled(s.deck_seed), dealt)
            &&& t.current_bet == s.rules.big_blind
            &&& t.increment == s.rules.big_blind
            &&& hand::still_in(t) >= 1
            &&& dealt == 2 * model::count(model::in_play_marks(after_blinds(s).seats))
            &&& model::in_play_marks(t.seats) == model::in_play_marks(after_blinds(s).seats)
            &&& forall|i: int|
                0 <= i < t.seats.len() ==> #[trigger] t.seats[i] == (Seat {
                    hole: t.seats[i].hole,
                    ..after_blinds(s).seats[i]
                })
        }),
{
    after_blinds_is_sound(s);
    let t = after_blinds(s);
    let order = deck::shuffled(s.deck_seed);
    let n = s.stacks.len() as int;
    let (u, d, notes) = hand::with_holes(t, order, 0, n);
    assert(hand::dealt_in(s).0 == u && hand::dealt_in(s).1 == d);
    holes_are_sound(t, order, 0, n);
    let marks = model::in_play_marks(t.seats);
    assert(marks.take(n) =~= marks);
    assert(model::in_play_marks(u.seats) =~= marks);
    assert(model::stacks(u.seats) =~= model::stacks(t.seats));
    assert(model::commitments(u.seats) =~= model::commitments(t.seats));
    assert(model::bets(u.seats) =~= model::commitments(u.seats)) by {
        assert forall|i: int| 0 <= i < n implies model::bets(u.seats)[i] == model::commitments(
            u.seats,
        )[i] by {
            assert(t.seats[i].bet == t.seats[i].committed);
        }
    }
    assert forall|i: int| 0 <= i < n implies soundness::seat_sound(#[trigger] u.seats[i]) by {
        assert(soundness::seat_sound(t.seats[i]));
    }
    assert forall|i: int| 0 <= i < n implies {
        &&& (#[trigger] u.seats[i]).bet == u.seats[i].committed
        &&& brought(u.seats[i]) == s.stacks[i]
        &&& u.seats[i].status != PlayerStatus::Folded
    } by {
        assert(t.seats[i].bet == t.seats[i].committed);
    }
}

/// Folding dead hands keeps chips, pot and cards in order.
pub proof fn dead_hands_are_sound(t: Table, kinds: Option<Seq<SeatKind>>, order: Seq<Card>, dealt: int)
    requires
        soundness::table_sound(t),
        soundness::cards_sound(t, order, dealt),
        kinds matches Some(k) ==> k.len() == t.seats.len(),
    ensures
        ({
            let u = hand::with_dead_hands(t, kinds);
            &&& soundness::table_sound(u)
            &&& soundness::cards_sound(u, order, dealt)
            &&& u.street == t.street && u.seats.len() == t.seats.len()
            &&& u == (Table { seats: u.seats, sat_out: u.sat_out, ..t })
            &&& forall|i: int|
                0 <= i < t.seats.len() ==> #[trigger] u.seats[i] == (Seat {
                    status: u.seats[i].status,
                    ..t.seats[i]
                }) && (u.seats[i].status == t.seats[i].status || u.seats[i].status
                    == PlayerStatus::Folded)
        }),
{
    let u = hand::with_dead_hands(t, kinds);
    assert(model::stacks(u.seats) =~= model::stacks(t.seats));
    assert(model::commitments(u.seats) =~= model::commitments(t.seats));
    assert(model::bets(u.seats) =~= model::bets(t.seats));
    assert forall|i: int| 0 <= i < u.seats.len() implies soundness::seat_sound(
        #[trigger] u.seats[i],
    ) by {
        assert(soundness::seat_sound(t.seats[i]));
    }
    assert forall|i: int| 0 <= i < u.seats.len() && model::in_play(#[trigger] u.seats[i]) implies {
        &&& u.seats[i].hole is Some
        &&& soundness::dealt_cards(hand::seven(u, i), order, dealt)
    } by {
        assert(model::in_play(t.seats[i]));
        assert(hand::seven(u, i) =~= hand::seven(t, i));
    }
}

/// Whoever takes an uncontested pot is awarded no more than the limit.
pub proof fn winning_is_sound(t: Table, winner: int, order: Seq<Card>, dealt: int)
    requires
        soundness::table_sound(t),
        0 <= winner < t.seats.len(),
    ensures
        ({
            let (u, phase) = hand::won(t, Some(winner));
            soundness::node_sound(Node { table: u, order, dealt, phase })
        }),
        hand::won(t, Some(winner)).1 is Terminal,
{
    soundness::amounts_within_limit(t);
    soundness::collecting_keeps_table(t);
    let c = hand::collected(t);
    soundness::amounts_within_limit(c);
    let (u, phase) = hand::won(t, Some(winner));
    let deltas = phase->deltas;
    assert forall|i: int| 0 <= i < deltas.len() implies 0 <= #[trigger] deltas[i] <= CHIP_LIMIT && 0
        <= u.seats[i].committed <= CHIP_LIMIT by {
        assert(soundness::seat_sound(c.seats[i]));
        assert(c.seats[i].stack + c.seats[i].committed <= CHIP_LIMIT);
    }
}

/// A hand's opening table is in good order.
pub proof fn opening_table_is_sound(s: Setup)
    requires
        setup_ok(s),
        deck::full_deck(deck::shuffled(s.deck_seed)),
    ensures
        soundness::table_sound(hand::opening_table(s)),
        soundness::cards_sound(
            hand::opening_table(s),
            deck::shuffled(s.deck_seed),
            hand::dealt_in(s).1,
        ),
        hand::opening_table(s).seats.len() == s.stacks.len(),
        hand::opening_table(s).street == Street::Preflop,
        hand::opening_table(s).increment == s.rules.big_blind,
        0 <= hand::big_blind_seat(hand::dealt_in(s).0) < s.stacks.len(),
{
    dealt_in_is_sound(s);
    let (t3, dealt, notes) = hand::dealt_in(s);
    dead_hands_are_sound(t3, s.kinds, deck::shuffled(s.deck_seed), dealt);
    blind_seats(t3);
}

/// A hand opens in good order.
pub proof fn opening_is_sound(s: Setup)
    requires
        setup_ok(s),
        deck::full_deck(deck::shuffled(s.deck_seed)),
    ensures
        soundness::node_sound(hand::opened(s).node),
        hand::opened(s).node.order == deck::shuffled(s.deck_seed),
        hand::first_asked(s) matches Some(first) ==> hand::opened(s).node.phase
            == (Phase::Decision { seat: first, responded: hand::none_marked(s.stacks.len()) }),
{
    dealt_in_is_sound(s);
    opening_table_is_sound(s);
    let (t3, dealt, notes) = hand::dealt_in(s);
    let order = deck::shuffled(s.deck_seed);
    let t = hand::opening_table(s);
    let marks = model::active_marks(t.seats);
    soundness::next_marked_finds(marks, hand::big_blind_seat(t3));
    match hand::first_asked(s) {
        None => {
            let in_marks = model::in_play_marks(t.seats);
            soundness::none_marked_counts_zero(in_marks);
            soundness::first_marked_finds(in_marks, 0);
            let w = hand::first_marked(in_marks, 0)->0;
            winning_is_sound(t, w, order, dealt);
            assert(hand::opened(s).node == (Node {
                table: hand::won(t, Some(w)).0,
                order,
                dealt,
                phase: hand::won(t, Some(w)).1,
            }));
        },
        Some(first) => {
            let u = Table { action_on: Some(first as usize), ..t };
            assert(marks[first]);
            same_but_for_action_on(t, u, order, dealt);
        },
    }
}

/// Who is said to be on turn does not matter to soundness.
pub proof fn same_but_for_action_on(t: Table, u: Table, order: Seq<Card>, dealt: int)
    requires
        u == (Table { action_on: u.action_on, ..t }),
    ensures
        soundness::table_sound(t) ==> soundness::table_sound(u),
        soundness::cards_sound(t, order, dealt) ==> soundness::cards_sound(u, order, dealt),
{
    if soundness::cards_sound(t, order, dealt) {
        assert forall|i: int| 0 <= i < u.seats.len() && model::in_play(
            #[trigger] u.seats[i],
        ) implies {
            &&& u.seats[i].hole is Some
            &&& soundness::dealt_cards(hand::seven(u, i), order, dealt)
        } by {
            assert(hand::seven(u, i) =~= hand::seven(t, i));
        }
    }
}

// ---------------------------------------------------------------------------
// Streets
// ---------------------------------------------------------------------------

/// A table between two betting rounds: in order, and nothing bet.
pub open spec fn between_rounds(t: Table, order: Seq<Card>, dealt: int) -> bool {
    &&& soundness::table_sound(t)
    &&& soundness::cards_sound(t, order, dealt)
    &&& forall|i: int| 0 <= i < t.seats.len() ==> (#[trigger] t.seats[i]).bet == 0
}

/// Dealing the next street keeps the table in order.
pub proof fn street_is_sound(
    rules: BettingRules,
    t: Table,
    order: Seq<Card>,
    dealt: int,
    street: Street,
    n: int,
)
    requires
        between_rounds(t, order, dealt),
        hand::next_street(t.street) == Some((street, n)),
        rules.big_blind <= CHIP_LIMIT,
    ensures
        between_rounds(hand::street_dealt(rules, t, order, dealt, street, n), order, dealt + n),
        dealt + n <= 52,
        hand::street_dealt(rules, t, order, dealt, street, n).street == street,
        street != Street::Showdown,
        model::in_play_marks(hand::street_dealt(rules, t, order, dealt, street, n).seats)
            == model::in_play_marks(t.seats),
        model::commitments(hand::street_dealt(rules, t, order, dealt, street, n).seats)
            == model::commitments(t.seats),
{
    let u = hand::street_dealt(rules, t, order, dealt, street, n);
    assert(model::stacks(u.seats) =~= model::stacks(t.seats));
    assert(model::commitments(u.seats) =~= model::commitments(t.seats));
    assert(model::in_play_marks(u.seats) =~= model::in_play_marks(t.seats));
    model::total_zeros(model::bets(t.seats));
    model::total_zeros(model::bets(u.seats));
    assert forall|i: int| 0 <= i < u.seats.len() implies soundness::seat_sound(
        #[trigger] u.seats[i],
    ) by {
        assert(soundness::seat_sound(t.seats[i]));
    }
    let more = order.subrange(dealt, dealt + n);
    assert forall|i: int| 0 <= i < u.seats.len() && model::in_play(#[trigger] u.seats[i]) implies {
        &&& u.seats[i].hole is Some
        &&& soundness::dealt_cards(hand::seven(u, i), order, dealt + n)
    } by {
        assert(model::in_play(t.seats[i]));
        let old = hand::seven(t, i);
        let new = hand::seven(u, i);
        assert(new =~= old + more);
        assert forall|k: int| 0 <= k < new.len() implies order.take(dealt + n).contains(
            #[trigger] new[k],
        ) by {
            if k < old.len() {
                assert(order.take(dealt).contains(old[k]));
                let x = choose|x: int| 0 <= x < dealt && order.take(dealt)[x] == old[k];
                assert(order.take(dealt + n)[x] == new[k]);
            } else {
                assert(order.take(dealt + n)[dealt + k - old.len()] == new[k]);
            }
        }
        assert forall|a: int, b: int| 0 <= a < new.len() && 0 <= b < new.len() && a != b implies new[a]
            != new[b] by {
            if a < old.len() && b < old.len() {
                assert(old[a] != old[b]);
            } else if a < old.len() {
                assert(order.take(dealt).contains(old[a]));
                let x = choose|x: int| 0 <= x < dealt && order.take(dealt)[x] == old[a];
                assert(order[x] == new[a]);
                assert(order[dealt + b - old.len()] == new[b]);
            } else if b < old.len() {
                assert(order.take(dealt).contains(old[b]));
                let x = choose|x: int| 0 <= x < dealt && order.take(dealt)[x] == old[b];
                assert(order[x] == new[b]);
                assert(order[dealt + a - old.len()] == new[a]);
            } else {
                assert(order[dealt + a - old.len()] == new[a]);
                assert(order[dealt + b - old.len()] == new[b]);
            }
        }
    }
}

/// Collecting bets after a round leaves a table between rounds.
pub proof fn collected_is_between_rounds(t: Table, order: Seq<Card>, dealt: int)
    requires
        soundness::table_sound(t),
        soundness::cards_sound(t, order, dealt),
    ensures
        between_rounds(hand::collected(t), order, dealt),
        between_rounds(Table { action_on: None, ..hand::collected(t) }, order, dealt),
{
    soundness::collecting_keeps_table(t);
    let u = hand::collected(t);
    assert forall|i: int| 0 <= i < u.seats.len() && model::in_play(#[trigger] u.seats[i]) implies {
        &&& u.seats[i].hole is Some
        &&& soundness::dealt_cards(hand::seven(u, i), order, dealt)
    } by {
        assert(model::in_play(t.seats[i]));
        assert(hand::seven(u, i) =~= hand::seven(t, i));
    }
    same_but_for_action_on(u, Table { action_on: None, ..u }, order, dealt);
}

/// Between rounds there is nothing to collect.
pub proof fn nothing_to_collect(t: Table)
    requires
        forall|i: int| 0 <= i < t.seats.len() ==> (#[trigger] t.seats[i]).bet == 0,
    ensures
        hand::collected(t) == t,
{
    model::total_zeros(model::bets(t.seats));
    assert(hand::collected(t) =~= t);
}

/// The awards of a showdown are within the limit.
pub proof fn showdown_is_sound<E: HandEvaluator>(e: E, t: Table)
    requires
        soundness::seating_sound(t),
        soundness::funds_sound(t),
    ensures
        hand::showdown(e, t).len() == t.seats.len(),
        forall|i: int|
            0 <= i < t.seats.len() ==> 0 <= #[trigger] hand::showdown(e, t)[i] <= CHIP_LIMIT,
        model::total(hand::showdown(e, t)) == pot_calc::pots_total(
            pot_calc::showdown_pots(t.seats),
        ),
{
    soundness::funds_within_limit(t);
    pot_calc::pots_hold_no_more(t.seats);
    pot_calc::pots_are_winnable(t.seats);
    let pots = pot_calc::showdown_pots(t.seats);
    soundness::pots_are_paid_exactly(e, t, pots, pots.len() as int);
    assert(pots.take(pots.len() as int) =~= pots);
    let d = hand::showdown(e, t);
    model::total_bounds(d, d.len() as int);
    assert(d.take(d.len() as int) =~= d);
}

/// From a finished round the hand goes on in good order.
pub proof fn streets_are_sound<E: HandEvaluator>(
    rules: BettingRules,
    e: E,
    t: Table,
    order: Seq<Card>,
    dealt: int,
)
    requires
        between_rounds(t, order, dealt),
        rules.big_blind <= CHIP_LIMIT,
    ensures
        soundness::node_sound(hand::streets(rules, e, t, order, dealt).node),
        hand::streets(rules, e, t, order, dealt).node.order == order,
    decreases hand::streets_left(t.street),
{
    match hand::next_street(t.street) {
        None => {
            soundness::chips_are_funds(t);
            showdown_is_sound(e, t);
            soundness::amounts_within_limit(t);
            let node = hand::streets(rules, e, t, order, dealt).node;
            let d = hand::showdown(e, t);
            assert forall|i: int| 0 <= i < d.len() implies 0 <= #[trigger] d[i] <= CHIP_LIMIT && 0
                <= node.table.seats[i].committed <= CHIP_LIMIT by {
                assert(soundness::seat_sound(t.seats[i]));
                assert(t.seats[i].stack + t.seats[i].committed <= CHIP_LIMIT);
            }
        },
        Some((street, n)) => {
            street_is_sound(rules, t, order, dealt, street, n);
            let t1 = hand::street_dealt(rules, t, order, dealt, street, n);
            let marks = model::active_marks(t1.seats);
            soundness::next_marked_finds(marks, t1.dealer as int);
            let first = hand::next_marked(marks, t1.dealer as int, 1);
            if model::count(marks) >= 2 && first is Some {
                let u = Table { action_on: Some(first->0 as usize), ..t1 };
                same_but_for_action_on(t1, u, order, dealt + n);
                assert(marks[first->0]);
            } else {
                nothing_to_collect(t1);
                streets_are_sound(rules, e, hand::collected(t1), order, dealt + n);
            }
        },
    }
}

/// An action keeps the cards in order.
pub proof fn action_keeps_cards(t: Table, seat: int, action: Action, order: Seq<Card>, dealt: int)
    requires
        soundness::table_sound(t),
        soundness::cards_sound(t, order, dealt),
        0 <= seat < t.seats.len(),
        t.seats[seat].status == PlayerStatus::Active,
        soundness::proper(t, seat, action),
    ensures
        soundness::cards_sound(hand::action_effect(t, seat, action).0, order, dealt),
{
    soundness::action_keeps_table(t, seat, action);
    let u = hand::action_effect(t, seat, action).0;
    assert forall|i: int| 0 <= i < u.seats.len() && model::in_play(#[trigger] u.seats[i]) implies {
        &&& u.seats[i].hole is Some
        &&& soundness::dealt_cards(hand::seven(u, i), order, dealt)
    } by {
        assert(model::in_play(t.seats[i]));
        assert(hand::seven(u, i) =~= hand::seven(t, i));
    }
}

/// What follows an action names a seat at the table.
pub proof fn next_is_a_seat(t: Table, responded: Seq<bool>, seat: int)
    requires
        1 <= t.seats.len(),
        0 <= seat < t.seats.len(),
    ensures
        match hand::next_after(t, responded, seat) {
            Next::Won(w) => 0 <= w < t.seats.len() && model::in_play(t.seats[w]),
            Next::Asks(s) => 0 <= s < t.seats.len() && hand::unsettled_marks(t, responded)[s]
                && t.seats[s].status == PlayerStatus::Active,
            Next::RoundOver => forall|i: int|
                0 <= i < t.seats.len() ==> !(#[trigger] hand::unsettled_marks(t, responded)[i]),
        },
{
    let in_marks = model::in_play_marks(t.seats);
    let marks = hand::unsettled_marks(t, responded);
    soundness::none_marked_counts_zero(in_marks);
    soundness::first_marked_finds(in_marks, 0);
    soundness::next_marked_finds(marks, seat);
}

/// A node just after an action: in order, with somebody who just acted.
pub open spec fn just_acted(node: Node) -> bool {
    &&& soundness::table_sound(node.table)
    &&& soundness::cards_sound(node.table, node.order, node.dealt)
    &&& node.phase matches Phase::Decision { seat, responded } && 0 <= seat
        < node.table.seats.len() && responded.len() == node.table.seats.len()
    &&& node.table.street != Street::Showdown
}

/// An action leaves a node in order.
pub proof fn acting_is_sound(node: Node, raw: Action)
    requires
        soundness::node_sound(node),
        node.phase is Decision,
    ensures
        just_acted(hand::acted(node, raw)),
        hand::acted(node, raw).order == node.order,
        hand::acted(node, raw).dealt == node.dealt,
{
    let seat = node.phase->seat;
    let action = hand::normalized(node.table, seat, raw);
    soundness::normalized_is_proper(node.table, seat, raw);
    soundness::action_keeps_table(node.table, seat, action);
    action_keeps_cards(node.table, seat, action, node.order, node.dealt);
}

/// After an action the hand goes on in good order.
pub proof fn advancing_is_sound<E: HandEvaluator>(rules: BettingRules, e: E, node: Node)
    requires
        just_acted(node),
        rules.big_blind <= CHIP_LIMIT,
    ensures
        soundness::node_sound(hand::advanced(rules, e, node).node),
        hand::advanced(rules, e, node).node.order == node.order,
{
    let t = node.table;
    let seat = node.phase->seat;
    let responded = node.phase->responded;
    next_is_a_seat(t, responded, seat);
    match hand::next_after(t, responded, seat) {
        Next::Won(w) => {
            winning_is_sound(t, w, node.order, node.dealt);
            let (u, phase) = hand::won(t, Some(w));
            assert(hand::advanced(rules, e, node).node == (Node {
                table: u,
                order: node.order,
                dealt: node.dealt,
                phase,
            }));
        },
        Next::Asks(s) => {
            same_but_for_action_on(
                t,
                Table { action_on: Some(s as usize), ..t },
                node.order,
                node.dealt,
            );
        },
        Next::RoundOver => {
            collected_is_between_rounds(t, node.order, node.dealt);
            streets_are_sound(
                rules,
                e,
                Table { action_on: None, ..hand::collected(t) },
                node.order,
                node.dealt,
            );
        },
    }
}

/// Every step of a hand leads from good order to good order.
pub proof fn step_is_sound<E: HandEvaluator>(rules: BettingRules, e: E, node: Node, raw: Action)
    requires
        soundness::node_sound(node),
        node.phase is Decision,
        rules.big_blind <= CHIP_LIMIT,
    ensures
        soundness::node_sound(hand::stepped(rules, e, node, raw).node),
        hand::stepped(rules, e, node, raw).node.order == node.order,
{
    acting_is_sound(node, raw);
    advancing_is_sound(rules, e, hand::acted(node, raw));
}

// ---------------------------------------------------------------------------
// Whose turn it is
// ---------------------------------------------------------------------------

/// The table says whose turn it is: at a decision the player to act, who can act; at
/// the end nobody.
pub open spec fn turn_marked(node: Node) -> bool {
    match node.phase {
        Phase::Decision { seat, .. } => {
            &&& 0 <= seat < node.table.seats.len()
            &&& node.table.seats[seat].status == PlayerStatus::Active
            &&& node.table.action_on == Some(seat as usize)
        },
        Phase::Terminal { .. } => node.table.action_on is None,
    }
}

proof fn streets_mark_turns<E: HandEvaluator>(
    rules: BettingRules,
    e: E,
    t: Table,
    order: Seq<Card>,
    dealt: int,
)
    requires
        t.action_on is None,
        1 <= t.seats.len(),
    ensures
        turn_marked(hand::streets(rules, e, t, order, dealt).node),
    decreases hand::streets_left(t.street),
{
    if let Some((street, n)) = hand::next_street(t.street) {
        let t1 = hand::street_dealt(rules, t, order, dealt, street, n);
        soundness::next_marked_finds(model::active_marks(t1.seats), t1.dealer as int);
        streets_mark_turns(rules, e, hand::collected(t1), order, dealt + n);
    }
}

/// Every hand opens with the turn marked.
pub proof fn openings_mark_turns(s: Setup)
    requires
        setup_ok(s),
        deck::full_deck(deck::shuffled(s.deck_seed)),
    ensures
        turn_marked(hand::opened(s).node),
{
    opening_table_is_sound(s);
    opening_is_sound(s);
    if let Some(first) = hand::first_asked(s) {
        assert(hand::opened(s).node.phase == (Phase::Decision {
            seat: first,
            responded: hand::none_marked(s.stacks.len()),
        }));
    }
}

/// Whatever follows an action, it leaves the turn marked.
pub proof fn advances_mark_turns<E: HandEvaluator>(rules: BettingRules, e: E, m: Node)
    requires
        just_acted(m),
    ensures
        turn_marked(hand::advanced(rules, e, m).node),
{
    next_is_a_seat(m.table, m.phase->responded, m.phase->seat);
    streets_mark_turns(
        rules,
        e,
        Table { action_on: None, ..hand::collected(m.table) },
        m.order,
        m.dealt,
    );
}

/// Every step of a hand leaves the turn marked.
pub proof fn steps_mark_turns<E: HandEvaluator>(rules: BettingRules, e: E, node: Node, raw: Action)
    requires
        soundness::node_sound(node),
        node.phase is Decision,
    ensures
        turn_marked(hand::stepped(rules, e, node, raw).node),
{
    acting_is_sound(node, raw);
    advances_mark_turns(rules, e, hand::acted(node, raw));
}

} // verus!
