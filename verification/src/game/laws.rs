//! What holds of every hand, however it is played.

use vstd::prelude::*;

use crate::cards::{deck, Card, HandEvaluator};
use crate::game::action::Action;
use crate::game::contest;
use crate::game::hand;
use crate::game::hand::{Next, Node, Phase, Setup, CHIP_LIMIT};
use crate::game::model;
use crate::game::model::{Outcome, Seat, Table};
use crate::game::pot_calc;
use crate::game::progress;
use crate::game::rules::BettingRules;
use crate::game::soundness;
use crate::game::state::{PlayerStatus, Street};

verus! {

// ---------------------------------------------------------------------------
// The thread that runs through a hand
// ---------------------------------------------------------------------------

/// What a seat may not lose or gain on the way: the chips it brought, its cards, its
/// flag. Who brought chips takes part, and nobody else; who is all-in has none left.
pub open spec fn seat_kept(s: Setup, t: Table, i: int) -> bool {
    let p = t.seats[i];
    &&& progress::brought(p) == s.stacks[i]
    &&& p.hole == hand::opening_table(s).seats[i].hole
    &&& p.status == PlayerStatus::Out <==> s.stacks[i] == 0
    &&& p.status == PlayerStatus::AllIn ==> p.stack == 0
}

/// The board is the run of cards that follows the hole cards in the shuffled deck.
pub open spec fn board_kept(s: Setup, t: Table, dealt: int) -> bool {
    let d0 = hand::dealt_in(s).1;
    &&& dealt == d0 + t.board.len()
    &&& 0 <= d0 <= 47
    &&& t.board.len() == 0 || 3 <= t.board.len() <= 5
    &&& t.board == deck::shuffled(s.deck_seed).subrange(d0, d0 + t.board.len())
}

/// The thread at a table that is not paid out yet.
pub open spec fn thread(s: Setup, t: Table, dealt: int) -> bool {
    &&& t.seats.len() == s.stacks.len()
    &&& t.sat_out == hand::opening_table(s).sat_out
    &&& t.hand_id == s.hand_id
    &&& forall|i: int| 0 <= i < t.seats.len() ==> seat_kept(s, t, i)
    &&& board_kept(s, t, dealt)
}

/// Everybody in play has committed chips.
pub open spec fn all_committed(t: Table) -> bool {
    forall|i: int|
        0 <= i < t.seats.len() && model::in_play(#[trigger] t.seats[i]) ==> t.seats[i].committed > 0
}

/// The thread at a decision: before the flop the bet to match is at least the big
/// blind; after it everybody in play has committed chips.
pub open spec fn on_thread(s: Setup, node: Node) -> bool {
    &&& soundness::node_sound(node)
    &&& node.order == deck::shuffled(s.deck_seed)
    &&& thread(s, node.table, node.dealt)
    &&& if node.table.street == Street::Preflop {
        node.table.current_bet >= s.rules.big_blind
    } else {
        all_committed(node.table)
    }
}

/// Somebody brought chips.
pub open spec fn funded_somewhere(s: Setup) -> bool {
    exists|i: int| 0 <= i < s.stacks.len() && #[trigger] s.stacks[i] > 0
}

/// The thread at the end of a hand: what each seat has is what it brought, less what
/// it committed, and what it was awarded. Who brought nothing is awarded nothing. The
/// awards are no more than was committed, and all of it if anybody is still in.
pub open spec fn at_end(s: Setup, node: Node) -> bool {
    let t = node.table;
    let deltas = node.phase->deltas;
    &&& soundness::node_sound(node)
    &&& node.order == deck::shuffled(s.deck_seed)
    &&& node.phase is Terminal
    &&& t.seats.len() == s.stacks.len()
    &&& t.sat_out == hand::opening_table(s).sat_out
    &&& board_kept(s, t, node.dealt)
    &&& forall|i: int|
        0 <= i < t.seats.len() ==> {
            &&& (#[trigger] t.seats[i]).stack == s.stacks[i] - t.seats[i].committed + deltas[i]
            &&& t.seats[i].hole == hand::opening_table(s).seats[i].hole
            &&& t.seats[i].committed <= s.stacks[i]
            &&& t.seats[i].status == PlayerStatus::Out ==> t.seats[i].committed == 0 && deltas[i]
                == 0
            &&& s.stacks[i] == 0 ==> deltas[i] == 0
        }
    &&& funded_somewhere(s) ==> forall|i: int|
        0 <= i < t.seats.len() ==> ((#[trigger] t.seats[i]).status == PlayerStatus::Out
            <==> s.stacks[i] == 0)
    &&& model::total(deltas) <= model::total(model::commitments(t.seats))
    &&& hand::still_in(t) >= 1 ==> model::total(deltas) == model::total(
        model::commitments(t.seats),
    )
}

/// On the thread, or at its end.
pub open spec fn in_order(s: Setup, node: Node) -> bool {
    match node.phase {
        Phase::Decision { .. } => on_thread(s, node),
        Phase::Terminal { .. } => at_end(s, node),
    }
}

// ---------------------------------------------------------------------------
// Winning without a showdown
// ---------------------------------------------------------------------------

proof fn winning_ends_well(s: Setup, t: Table, dealt: int, winner: int)
    requires
        soundness::table_sound(t),
        thread(s, t, dealt),
        0 <= winner < t.seats.len(),
        model::in_play(t.seats[winner]),
    ensures
        at_end(
            s,
            Node {
                table: hand::won(t, Some(winner)).0,
                order: deck::shuffled(s.deck_seed),
                dealt,
                phase: hand::won(t, Some(winner)).1,
            },
        ),
{
    let order = deck::shuffled(s.deck_seed);
    progress::winning_is_sound(t, winner, order, dealt);
    soundness::collecting_keeps_table(t);
    let c = hand::collected(t);
    let (u, phase) = hand::won(t, Some(winner));
    let deltas = phase->deltas;
    let zeros: Seq<int> = Seq::new(t.seats.len(), |i: int| 0);
    model::total_zeros(zeros);
    model::total_update(zeros, winner, hand::pot_total(c));
    assert(deltas =~= zeros.update(winner, hand::pot_total(c)));
    assert(model::commitments(u.seats) =~= model::commitments(t.seats));
    assert forall|i: int| 0 <= i < u.seats.len() implies ((#[trigger] u.seats[i]).status
        == PlayerStatus::Out <==> s.stacks[i] == 0) by {
        assert(seat_kept(s, t, i));
    }
    assert forall|i: int| 0 <= i < u.seats.len() implies {
        &&& (#[trigger] u.seats[i]).stack == s.stacks[i] - u.seats[i].committed + deltas[i]
        &&& u.seats[i].hole == hand::opening_table(s).seats[i].hole
        &&& u.seats[i].committed <= s.stacks[i]
        &&& u.seats[i].status == PlayerStatus::Out ==> u.seats[i].committed == 0 && deltas[i] == 0
        &&& s.stacks[i] == 0 ==> deltas[i] == 0
    } by {
        assert(seat_kept(s, t, i));
        assert(soundness::seat_sound(t.seats[i]));
    }
}

// ---------------------------------------------------------------------------
// Opening
// ---------------------------------------------------------------------------

/// Antes and blinds keep the rule that who is in play brought chips, while anybody
/// did, and that who is all-in has none left.
proof fn posting_keeps_rule(t: Table, s: Setup, i: int, amount: int)
    requires
        progress::opening_sound(t, s),
        0 <= i < t.seats.len(),
        0 <= amount,
        model::in_play(t.seats[i]),
        forall|j: int|
            0 <= j < t.seats.len() ==> (model::in_play(#[trigger] t.seats[j]) <==> s.stacks[j] > 0)
                && (t.seats[j].status == PlayerStatus::AllIn ==> t.seats[j].stack == 0)
                && t.seats[j].hole is None,
    ensures
        ({
            let u = hand::posted(t, i, amount);
            forall|j: int|
                0 <= j < u.seats.len() ==> (model::in_play(#[trigger] u.seats[j]) <==> s.stacks[j]
                    > 0) && (u.seats[j].status == PlayerStatus::AllIn ==> u.seats[j].stack == 0)
                    && u.seats[j].hole is None
        }),
{
    let u = hand::posted(t, i, amount);
    assert(soundness::seat_sound(t.seats[i]));
    assert forall|j: int| 0 <= j < u.seats.len() implies (model::in_play(#[trigger] u.seats[j])
        <==> s.stacks[j] > 0) && (u.seats[j].status == PlayerStatus::AllIn ==> u.seats[j].stack
        == 0) && u.seats[j].hole is None by {
        assert(t.seats[j].hole is None);
        assert(model::in_play(t.seats[i]) ==> s.stacks[i] > 0);
    }
}

proof fn antes_keep_rule(t: Table, s: Setup, ante: int, n: int)
    requires
        progress::opening_sound(t, s),
        0 <= ante,
        0 <= n <= t.seats.len(),
        forall|j: int|
            0 <= j < t.seats.len() ==> (model::in_play(#[trigger] t.seats[j]) <==> s.stacks[j] > 0)
                && (t.seats[j].status == PlayerStatus::AllIn ==> t.seats[j].stack == 0)
                && t.seats[j].hole is None,
    ensures
        ({
            let u = hand::with_antes(t, ante, n).0;
            &&& u.seats.len() == t.seats.len()
            &&& forall|j: int|
                0 <= j < u.seats.len() ==> (model::in_play(#[trigger] u.seats[j]) <==> s.stacks[j]
                    > 0) && (u.seats[j].status == PlayerStatus::AllIn ==> u.seats[j].stack == 0)
                    && u.seats[j].hole is None
        }),
    decreases n,
{
    if n > 0 {
        antes_keep_rule(t, s, ante, n - 1);
        progress::antes_are_sound(t, s, ante, n - 1);
        let t1 = hand::with_antes(t, ante, n - 1).0;
        if t1.seats[n - 1].status == PlayerStatus::Active {
            posting_keeps_rule(t1, s, n - 1, ante);
        }
    }
}

/// Where somebody brought chips, everybody in play after the blinds did.
proof fn blinds_keep_rule(s: Setup)
    requires
        progress::seating_ok(s),
        exists|i: int| 0 <= i < s.stacks.len() && #[trigger] s.stacks[i] > 0,
    ensures
        ({
            let u = progress::after_blinds(s);
            &&& u.seats.len() == s.stacks.len()
            &&& forall|j: int|
                0 <= j < u.seats.len() ==> (model::in_play(#[trigger] u.seats[j]) <==> s.stacks[j]
                    > 0) && (u.seats[j].status == PlayerStatus::AllIn ==> u.seats[j].stack == 0)
                    && u.seats[j].hole is None
        }),
{
    progress::fresh_is_sound(s);
    progress::before_blinds_is_sound(s);
    let t0 = hand::fresh_table(s);
    antes_keep_rule(t0, s, s.rules.ante as int, s.stacks.len() as int);
    let t = progress::before_blinds(s);
    let i = choose|i: int| 0 <= i < s.stacks.len() && #[trigger] s.stacks[i] > 0;
    soundness::none_marked_counts_zero(model::in_play_marks(t0.seats));
    assert(model::in_play_marks(t0.seats)[i]);
    progress::antes_are_sound(t0, s, s.rules.ante as int, s.stacks.len() as int);
    assert(hand::still_in(t) >= 1);
    progress::blind_seats(t);
    let sb = hand::small_blind_seat(t);
    let bb = hand::big_blind_seat(t);
    posting_keeps_rule(t, s, sb, s.rules.small_blind as int);
    progress::posting_is_sound(t, s, sb, s.rules.small_blind as int);
    let t1 = hand::posted(t, sb, s.rules.small_blind as int);
    assert(model::in_play(t1.seats[bb])) by {
        assert(model::in_play(t.seats[bb]));
    }
    posting_keeps_rule(t1, s, bb, s.rules.big_blind as int);
}

/// Where nobody brought chips, only the dealer, who posts nothing, is in play.
proof fn penniless_table_has_one(s: Setup)
    requires
        progress::seating_ok(s),
        forall|i: int| 0 <= i < s.stacks.len() ==> #[trigger] s.stacks[i] == 0,
    ensures
        model::count(model::in_play_marks(progress::after_blinds(s).seats)) <= 1,
{
    progress::after_blinds_is_sound(s);
    let t = progress::after_blinds(s);
    let n = s.stacks.len() as int;
    let marks = model::in_play_marks(t.seats);
    let t0 = hand::fresh_table(s);
    progress::fresh_is_sound(s);
    no_antes_without_actives(t0, s.rules.ante as int, n);
    let none: Seq<bool> = Seq::new(n as nat, |i: int| false);
    assert(model::in_play_marks(t0.seats) =~= none);
    soundness::none_marked_counts_zero(none);
    progress::blind_seats(t0);
    let alone = none.update(s.dealer as int, true);
    model::count_update(none, s.dealer as int, true);
    assert forall|i: int| 0 <= i < n && #[trigger] marks[i] implies alone[i] by {
        if i != s.dealer {
            assert(t.seats[i] == t0.seats[i]);
        }
    }
    more_marks_count_more(marks, alone);
}

/// Who is in at the opening was in after the blinds.
pub proof fn opening_players_took_blinds(s: Setup)
    requires
        progress::setup_ok(s),
        deck::full_deck(deck::shuffled(s.deck_seed)),
    ensures
        hand::opening_table(s).seats.len() == s.stacks.len(),
        progress::after_blinds(s).seats.len() == s.stacks.len(),
        forall|i: int|
            0 <= i < s.stacks.len() ==> {
                let p = #[trigger] hand::opening_table(s).seats[i];
                let q = progress::after_blinds(s).seats[i];
                &&& p == (Seat { status: p.status, hole: p.hole, ..q })
                &&& p.status == q.status || p.status == PlayerStatus::Folded
                &&& s.kinds is None ==> p.status == q.status
            },
        hand::still_in(hand::opening_table(s)) <= hand::still_in(progress::after_blinds(s)),
        s.kinds is None ==> hand::still_in(hand::opening_table(s)) == hand::still_in(
            progress::after_blinds(s),
        ),
{
    progress::dealt_in_is_sound(s);
    progress::after_blinds_is_sound(s);
    let (t3, dealt, notes) = hand::dealt_in(s);
    progress::dead_hands_are_sound(t3, s.kinds, deck::shuffled(s.deck_seed), dealt);
    let t = hand::opening_table(s);
    let t2 = progress::after_blinds(s);
    assert forall|i: int| 0 <= i < s.stacks.len() implies {
        let p = #[trigger] t.seats[i];
        let q = t2.seats[i];
        &&& p == (Seat { status: p.status, hole: p.hole, ..q })
        &&& p.status == q.status || p.status == PlayerStatus::Folded
        &&& s.kinds is None ==> p.status == q.status
    } by {
        assert(t.seats[i] == (Seat { status: t.seats[i].status, ..t3.seats[i] }));
        assert(t3.seats[i] == (Seat { hole: t3.seats[i].hole, ..t2.seats[i] }));
    }
    let a = model::in_play_marks(t.seats);
    let b = model::in_play_marks(t2.seats);
    assert forall|i: int| 0 <= i < a.len() && #[trigger] a[i] implies b[i] by {
        assert(t.seats[i].status == t2.seats[i].status);
    }
    more_marks_count_more(a, b);
    if s.kinds is None {
        assert forall|i: int| 0 <= i < b.len() && #[trigger] b[i] implies a[i] by {
            assert(t.seats[i].status == t2.seats[i].status);
        }
        more_marks_count_more(b, a);
    }
}

proof fn opening_in_order(s: Setup)
    requires
        progress::setup_ok(s),
        deck::full_deck(deck::shuffled(s.deck_seed)),
    ensures
        in_order(s, hand::opened(s).node),
{
    progress::opening_is_sound(s);
    progress::opening_table_is_sound(s);
    progress::dealt_in_is_sound(s);
    let order = deck::shuffled(s.deck_seed);
    let (t3, dealt, notes) = hand::dealt_in(s);
    progress::dead_hands_are_sound(t3, s.kinds, order, dealt);
    progress::after_blinds_is_sound(s);
    let t2 = progress::after_blinds(s);
    let t = hand::opening_table(s);
    let node = hand::opened(s).node;
    model::count_bounds(model::in_play_marks(t2.seats));
    assert(order.subrange(dealt, dealt) =~= Seq::<Card>::empty());
    if exists|i: int| 0 <= i < s.stacks.len() && #[trigger] s.stacks[i] > 0 {
        blinds_keep_rule(s);
        assert forall|i: int| 0 <= i < t.seats.len() implies seat_kept(s, t, i) by {
            assert(t.seats[i] == (Seat { status: t.seats[i].status, ..t3.seats[i] }));
            assert(t3.seats[i] == (Seat { hole: t3.seats[i].hole, ..t2.seats[i] }));
            assert(progress::brought(t3.seats[i]) == s.stacks[i]);
        }
        assert(thread(s, t, dealt));
        match hand::first_asked(s) {
            Some(first) => {
                assert forall|i: int| 0 <= i < t.seats.len() implies seat_kept(
                    s,
                    node.table,
                    i,
                ) by {
                    assert(seat_kept(s, t, i));
                }
            },
            None => {
                let marks = model::in_play_marks(t.seats);
                soundness::none_marked_counts_zero(marks);
                soundness::first_marked_finds(marks, 0);
                winning_ends_well(s, t, dealt, hand::first_marked(marks, 0)->0);
            },
        }
    } else {
        // Nobody brought chips: nobody can act and there is nothing to win.
        assert forall|i: int| 0 <= i < t.seats.len() implies t.seats[i].status
            != PlayerStatus::Active && t.seats[i].committed == 0 && t.seats[i].stack == 0 by {
            assert(t.seats[i] == (Seat { status: t.seats[i].status, ..t3.seats[i] }));
            assert(progress::brought(t3.seats[i]) == s.stacks[i]);
            assert(s.stacks[i] == 0);
            assert(soundness::seat_sound(t.seats[i]));
        }
        let marks = model::in_play_marks(t.seats);
        soundness::none_marked_counts_zero(marks);
        soundness::first_marked_finds(marks, 0);
        let w = hand::first_marked(marks, 0)->0;
        progress::blind_seats(t3);
        soundness::next_marked_finds(model::active_marks(t.seats), hand::big_blind_seat(t3));
        model::total_zeros(model::commitments(t.seats));
        soundness::collecting_keeps_table(t);
        assert(hand::pot_total(hand::collected(t)) == 0);
        let (u, phase) = hand::won(t, Some(w));
        assert(node.table == u && node.phase == phase);
        model::total_zeros(phase->deltas);
        model::total_zeros(model::commitments(u.seats));
        assert forall|i: int| 0 <= i < u.seats.len() implies {
            &&& (#[trigger] u.seats[i]).stack == s.stacks[i] - u.seats[i].committed
                + phase->deltas[i]
            &&& u.seats[i].hole == hand::opening_table(s).seats[i].hole
            &&& u.seats[i].committed <= s.stacks[i]
            &&& u.seats[i].status == PlayerStatus::Out ==> u.seats[i].committed == 0
                && phase->deltas[i] == 0
            &&& s.stacks[i] == 0 ==> phase->deltas[i] == 0
        } by {
            assert(t.seats[i].status != PlayerStatus::Active);
        }
    }
}


// ---------------------------------------------------------------------------
// Streets
// ---------------------------------------------------------------------------

/// A showdown ends a hand well.
proof fn showdown_ends_well<E: HandEvaluator>(s: Setup, e: E, t: Table, dealt: int)
    requires
        soundness::table_sound(t),
        thread(s, t, dealt),
        all_committed(t),
    ensures
        at_end(
            s,
            Node {
                table: hand::paid_table(
                    Table { street: Street::Showdown, ..t },
                    hand::showdown(e, t),
                ),
                order: deck::shuffled(s.deck_seed),
                dealt,
                phase: Phase::Terminal { deltas: hand::showdown(e, t) },
            },
        ),
{
    soundness::chips_are_funds(t);
    progress::showdown_is_sound(e, t);
    soundness::amounts_within_limit(t);
    let deltas = hand::showdown(e, t);
    let u = hand::paid_table(Table { street: Street::Showdown, ..t }, deltas);
    assert(model::commitments(u.seats) =~= model::commitments(t.seats));
    assert(model::in_play_marks(u.seats) =~= model::in_play_marks(t.seats));
    if hand::still_in(u) >= 1 {
        soundness::none_marked_counts_zero(model::in_play_marks(t.seats));
        let i = choose|i: int| 0 <= i < t.seats.len() && model::in_play_marks(t.seats)[i];
        assert(model::in_play(t.seats[i]));
        assert(t.seats[i].committed > 0 && t.seats[i].status != PlayerStatus::Folded);
        pot_calc::pots_hold_every_chip(t.seats);
    }
    assert forall|i: int| 0 <= i < u.seats.len() implies {
        &&& (#[trigger] u.seats[i]).stack == s.stacks[i] - u.seats[i].committed + deltas[i]
        &&& u.seats[i].hole == hand::opening_table(s).seats[i].hole
        &&& u.seats[i].committed <= s.stacks[i]
        &&& u.seats[i].status == PlayerStatus::Out ==> u.seats[i].committed == 0 && deltas[i] == 0
        &&& s.stacks[i] == 0 ==> deltas[i] == 0
    } by {
        assert(seat_kept(s, t, i));
        assert(soundness::seat_sound(t.seats[i]));
        if t.seats[i].status == PlayerStatus::Out || s.stacks[i] == 0 {
            outsiders_win_nothing(e, t, i);
        }
    }
    assert forall|i: int| 0 <= i < u.seats.len() implies ((#[trigger] u.seats[i]).status
        == PlayerStatus::Out <==> s.stacks[i] == 0) by {
        assert(seat_kept(s, t, i));
    }
    pot_calc::pots_hold_no_more(t.seats);
    assert forall|i: int| 0 <= i < deltas.len() implies 0 <= #[trigger] deltas[i] <= CHIP_LIMIT && 0
        <= u.seats[i].committed <= CHIP_LIMIT by {
        assert(soundness::seat_sound(t.seats[i]));
        assert(t.seats[i].stack + t.seats[i].committed <= CHIP_LIMIT);
    }
}

/// Who committed nothing is awarded nothing at showdown.
pub proof fn outsiders_win_nothing<E: HandEvaluator>(e: E, t: Table, seat: int)
    requires
        soundness::seating_sound(t),
        0 <= seat < t.seats.len(),
        t.seats[seat].committed <= 0,
    ensures
        hand::showdown(e, t)[seat] == 0,
{
    let pots = pot_calc::showdown_pots(t.seats);
    pot_calc::pots_are_winnable(t.seats);
    outsiders_win_no_pot(e, t, pots, pots.len() as int, seat);
}

proof fn outsiders_win_no_pot<E: HandEvaluator>(
    e: E,
    t: Table,
    pots: Seq<(u32, Seq<usize>)>,
    n: int,
    seat: int,
)
    requires
        soundness::seating_sound(t),
        0 <= seat < t.seats.len(),
        t.seats[seat].committed <= 0,
        0 <= n <= pots.len(),
        forall|p: int| 0 <= p < pots.len() ==> pot_calc::winnable(t.seats, #[trigger] pots[p]),
    ensures
        hand::with_pots_paid(e, t, pots, n).len() == t.seats.len(),
        hand::with_pots_paid(e, t, pots, n)[seat] == 0,
    decreases n,
{
    if n > 0 {
        outsiders_win_no_pot(e, t, pots, n - 1, seat);
        let pot = pots[n - 1];
        assert(pot_calc::winnable(t.seats, pot));
        let before = hand::with_pots_paid(e, t, pots, n - 1);
        soundness::pots_are_paid_exactly(e, t, pots, n - 1);
        soundness::pot_is_paid_exactly(e, t, before, pot);
        assert(!pot.1.contains(seat as usize)) by {
            if pot.1.contains(seat as usize) {
                let k = choose|k: int| 0 <= k < pot.1.len() && pot.1[k] == seat as usize;
                assert(t.seats[pot.1[k] as int].committed > 0);
            }
        }
        if pot.1.len() == 1 {
            assert(pot.1[0] as int != seat) by {
                assert(pot.1.contains(pot.1[0]));
            }
        } else {
            let winners = hand::winner_marks(e, t, pot.1);
            soundness::next_marked_finds(winners, t.dealer as int);
            assert(!winners[seat]);
        }
    }
}

proof fn streets_in_order<E: HandEvaluator>(s: Setup, e: E, t: Table, dealt: int)
    requires
        progress::between_rounds(t, deck::shuffled(s.deck_seed), dealt),
        thread(s, t, dealt),
        all_committed(t),
        s.rules.big_blind <= CHIP_LIMIT,
    ensures
        in_order(
            s,
            hand::streets(s.rules, e, t, deck::shuffled(s.deck_seed), dealt).node,
        ),
    decreases hand::streets_left(t.street),
{
    let order = deck::shuffled(s.deck_seed);
    progress::streets_are_sound(s.rules, e, t, order, dealt);
    match hand::next_street(t.street) {
        None => {
            showdown_ends_well(s, e, t, dealt);
        },
        Some((street, n)) => {
            progress::street_is_sound(s.rules, t, order, dealt, street, n);
            let t1 = hand::street_dealt(s.rules, t, order, dealt, street, n);
            street_keeps_thread(s, t, dealt, street, n);
            let marks = model::active_marks(t1.seats);
            let first = hand::next_marked(marks, t1.dealer as int, 1);
            if model::count(marks) >= 2 && first is Some {
                let u = Table { action_on: Some(first->0 as usize), ..t1 };
                assert(thread(s, u, dealt + n)) by {
                    assert forall|i: int| 0 <= i < u.seats.len() implies seat_kept(s, u, i) by {
                        assert(seat_kept(s, t1, i));
                    }
                }
                assert(all_committed(u)) by {
                    assert forall|i: int|
                        0 <= i < u.seats.len() && model::in_play(
                            #[trigger] u.seats[i],
                        ) implies u.seats[i].committed > 0 by {
                        assert(model::in_play(t1.seats[i]));
                    }
                }
            } else {
                progress::nothing_to_collect(t1);
                streets_in_order(s, e, hand::collected(t1), dealt + n);
            }
        },
    }
}

proof fn street_keeps_thread(s: Setup, t: Table, dealt: int, street: Street, n: int)
    requires
        progress::between_rounds(t, deck::shuffled(s.deck_seed), dealt),
        hand::next_street(t.street) == Some((street, n)),
        thread(s, t, dealt),
        all_committed(t),
        s.rules.big_blind <= CHIP_LIMIT,
    ensures
        ({
            let t1 = hand::street_dealt(
                s.rules,
                t,
                deck::shuffled(s.deck_seed),
                dealt,
                street,
                n,
            );
            &&& thread(s, t1, dealt + n)
            &&& all_committed(t1)
        }),
{
    let order = deck::shuffled(s.deck_seed);
    let t1 = hand::street_dealt(s.rules, t, order, dealt, street, n);
    progress::street_is_sound(s.rules, t, order, dealt, street, n);
    let d0 = hand::dealt_in(s).1;
    assert(t1.board =~= order.subrange(d0, d0 + t1.board.len()));
    assert forall|i: int| 0 <= i < t1.seats.len() implies seat_kept(s, t1, i) by {
        assert(seat_kept(s, t, i));
    }
    assert forall|i: int|
        0 <= i < t1.seats.len() && model::in_play(#[trigger] t1.seats[i]) implies t1.seats[i].committed
        > 0 by {
        assert(model::in_play(t.seats[i]));
    }
}

// ---------------------------------------------------------------------------
// Steps
// ---------------------------------------------------------------------------

proof fn acting_keeps_thread(s: Setup, node: Node, raw: Action)
    requires
        on_thread(s, node),
        node.phase is Decision,
    ensures
        ({
            let u = hand::acted(node, raw).table;
            &&& thread(s, u, node.dealt)
            &&& u.current_bet >= node.table.current_bet
            &&& u.street == node.table.street
            &&& u.street != Street::Preflop ==> all_committed(u)
        }),
{
    let t = node.table;
    let seat = node.phase->seat;
    let action = hand::normalized(t, seat, raw);
    soundness::normalized_is_proper(t, seat, raw);
    soundness::action_keeps_table(t, seat, action);
    let u = hand::acted(node, raw).table;
    assert(soundness::seat_sound(t.seats[seat]));
    assert forall|i: int| 0 <= i < u.seats.len() implies seat_kept(s, u, i) by {
        assert(seat_kept(s, t, i));
        if i != seat {
            assert(u.seats[i] == t.seats[i]);
        }
    }
    if u.street != Street::Preflop {
        assert forall|i: int|
            0 <= i < u.seats.len() && model::in_play(#[trigger] u.seats[i]) implies u.seats[i].committed
            > 0 by {
            assert(model::in_play(t.seats[i]));
            if i != seat {
                assert(u.seats[i] == t.seats[i]);
            }
        }
    }
}

/// When the betting before the flop is over, everybody in play has committed chips.
proof fn round_over_all_committed(s: Setup, t: Table, responded: Seq<bool>, dealt: int)
    requires
        soundness::table_sound(t),
        thread(s, t, dealt),
        t.current_bet >= 1,
        responded.len() == t.seats.len(),
        forall|i: int|
            0 <= i < t.seats.len() ==> !(#[trigger] hand::unsettled_marks(t, responded)[i]),
    ensures
        all_committed(t),
{
    assert forall|i: int| 0 <= i < t.seats.len() && model::in_play(#[trigger] t.seats[i]) implies t.seats[i].committed
        > 0 by {
        assert(soundness::seat_sound(t.seats[i]));
        assert(seat_kept(s, t, i));
        assert(!hand::unsettled_marks(t, responded)[i]);
    }
}

proof fn step_in_order<E: HandEvaluator>(s: Setup, e: E, node: Node, raw: Action)
    requires
        on_thread(s, node),
        node.phase is Decision,
        1 <= s.rules.big_blind <= CHIP_LIMIT,
    ensures
        in_order(s, hand::stepped(s.rules, e, node, raw).node),
{
    let order = deck::shuffled(s.deck_seed);
    progress::acting_is_sound(node, raw);
    progress::step_is_sound(s.rules, e, node, raw);
    acting_keeps_thread(s, node, raw);
    let m = hand::acted(node, raw);
    let t = m.table;
    let seat = m.phase->seat;
    let responded = m.phase->responded;
    progress::next_is_a_seat(t, responded, seat);
    match hand::next_after(t, responded, seat) {
        Next::Won(w) => {
            winning_ends_well(s, t, node.dealt, w);
        },
        Next::Asks(next) => {
            let u = Table { action_on: Some(next as usize), ..t };
            assert forall|i: int| 0 <= i < u.seats.len() implies seat_kept(s, u, i) by {
                assert(seat_kept(s, t, i));
            }
            if u.street != Street::Preflop {
                assert forall|i: int|
                    0 <= i < u.seats.len() && model::in_play(
                        #[trigger] u.seats[i],
                    ) implies u.seats[i].committed > 0 by {
                    assert(model::in_play(t.seats[i]));
                }
            }
        },
        Next::RoundOver => {
            if t.street == Street::Preflop {
                round_over_all_committed(s, t, responded, node.dealt);
            }
            progress::collected_is_between_rounds(t, order, node.dealt);
            let u = Table { action_on: None, ..hand::collected(t) };
            assert forall|i: int| 0 <= i < u.seats.len() implies seat_kept(s, u, i) by {
                assert(seat_kept(s, t, i));
            }
            assert forall|i: int|
                0 <= i < u.seats.len() && model::in_play(
                    #[trigger] u.seats[i],
                ) implies u.seats[i].committed > 0 by {
                assert(model::in_play(t.seats[i]));
            }
            streets_in_order(s, e, u, node.dealt);
        },
    }
}

/// All answers but the last fit too, and led to a decision.
pub proof fn fewer_answers_fit<E: HandEvaluator>(s: Setup, e: E, answers: Seq<Action>)
    requires
        hand::answers_fit(s, e, answers),
        answers.len() > 0,
    ensures
        hand::answers_fit(s, e, answers.drop_last()),
        hand::played(s, e, answers.drop_last()).node.phase is Decision,
{
    let before = answers.drop_last();
    assert forall|k: int| 0 <= k < before.len() implies (#[trigger] hand::played(
        s,
        e,
        before.take(k),
    )).node.phase is Decision by {
        assert(before.take(k) =~= answers.take(k));
    }
    assert(answers.take(answers.len() - 1) =~= before);
}

/// Every hand keeps to its thread, whatever the players answer.
pub proof fn hand_in_order<E: HandEvaluator>(s: Setup, e: E, answers: Seq<Action>)
    requires
        progress::setup_ok(s),
        deck::full_deck(deck::shuffled(s.deck_seed)),
        1 <= s.rules.big_blind,
        hand::answers_fit(s, e, answers),
    ensures
        in_order(s, hand::played(s, e, answers).node),
    decreases answers.len(),
{
    if answers.len() == 0 {
        opening_in_order(s);
    } else {
        let before = answers.drop_last();
        fewer_answers_fit(s, e, answers);
        hand_in_order(s, e, before);
        step_in_order(s, e, hand::played(s, e, before).node, answers.last());
    }
}


// ---------------------------------------------------------------------------
// Laws: chips
// ---------------------------------------------------------------------------

/// A hand that was played to its end: setup, evaluator and answers fit together.
pub open spec fn finished<E: HandEvaluator>(s: Setup, e: E, answers: Seq<Action>) -> bool {
    &&& progress::setup_ok(s)
    &&& deck::full_deck(deck::shuffled(s.deck_seed))
    &&& 1 <= s.rules.big_blind
    &&& hand::answers_fit(s, e, answers)
    &&& hand::played(s, e, answers).node.phase is Terminal
}

/// The gains and losses that an outcome lists.
pub open spec fn chip_deltas(o: Outcome) -> Seq<int> {
    Seq::new(o.seats.len(), |k: int| o.seats[k].chip_delta)
}

/// Summing over the marked positions is summing over all, where the others are zero.
proof fn total_of_marked(marks: Seq<bool>, xs: Seq<int>, ys: Seq<int>)
    requires
        marks.len() == xs.len(),
        forall|i: int| 0 <= i < marks.len() && !marks[i] ==> xs[i] == 0,
        ys.len() == model::marked(marks).len(),
        forall|k: int| 0 <= k < ys.len() ==> #[trigger] ys[k] == xs[model::marked(marks)[k]],
    ensures
        model::total(ys) == model::total(xs),
    decreases marks.len(),
{
    if marks.len() > 0 {
        let head = marks.drop_last();
        model::count_bounds(marks);
        model::count_bounds(head);
        if marks.last() {
            let y0 = ys.drop_last();
            assert forall|k: int| 0 <= k < y0.len() implies #[trigger] y0[k]
                == xs.drop_last()[model::marked(head)[k]] by {
                assert(y0[k] == ys[k]);
                assert(model::marked(marks)[k] == model::marked(head)[k]);
            }
            total_of_marked(head, xs.drop_last(), y0);
            assert(ys[ys.len() - 1] == xs[model::marked(marks)[ys.len() - 1]]);
        } else {
            assert forall|k: int| 0 <= k < ys.len() implies #[trigger] ys[k]
                == xs.drop_last()[model::marked(head)[k]] by {
                assert(ys[k] == xs[model::marked(marks)[k]]);
            }
            total_of_marked(head, xs.drop_last(), ys);
            assert(!marks[marks.len() - 1]);
        }
    }
}

/// No chip is made or lost in a hand: the awards are all that was committed, gains
/// and losses cancel out, and the stacks add up to what they were. This holds of every
/// contested hand, and so of every hand without dead hands. It holds of any other hand
/// too, unless its lone live player has folded: then nobody is left to award the chips
/// to.
pub proof fn chips_are_conserved<E: HandEvaluator>(s: Setup, e: E, answers: Seq<Action>)
    requires
        finished(s, e, answers),
        s.kinds is None || contest::contested(s) || hand::still_in(
            hand::played(s, e, answers).node.table,
        ) >= 1,
    ensures
        ({
            let node = hand::played(s, e, answers).node;
            let result = hand::outcome(s.hand_id, node.table, node.phase->deltas);
            &&& model::total(node.phase->deltas) == model::total(
                model::commitments(node.table.seats),
            )
            &&& model::total(chip_deltas(result)) == 0
            &&& model::total(model::stacks(node.table.seats)) == model::total(
                progress::starting_stacks(s),
            )
        }),
{
    if s.kinds is None {
        contest::live_tables_are_contested(s);
    }
    if contest::contested(s) {
        contest::somebody_stays_in(s, e, answers);
    }
    hand_in_order(s, e, answers);
    let node = hand::played(s, e, answers).node;
    let t = node.table;
    let deltas = node.phase->deltas;
    let result = hand::outcome(s.hand_id, t, deltas);
    let n = t.seats.len();
    let cs = model::commitments(t.seats);
    let net: Seq<int> = Seq::new(n, |i: int| deltas[i] - cs[i]);
    model::total_sum(net, cs, deltas);
    let marks = hand::took_part_marks(t.seats);
    assert forall|i: int| 0 <= i < n && !marks[i] implies net[i] == 0 by {
        assert(t.seats[i].status == PlayerStatus::Out);
    }
    model::count_bounds(marks);
    total_of_marked(marks, net, chip_deltas(result));
    let ss = model::stacks(t.seats);
    assert forall|i: int| 0 <= i < n implies ss[i] == progress::starting_stacks(s)[i] + net[i] by {
        assert(t.seats[i].stack == s.stacks[i] - t.seats[i].committed + deltas[i]);
    }
    model::total_sum(progress::starting_stacks(s), net, ss);
}

/// Nobody loses more than they brought, and what a seat has at the end is what it
/// brought and its gain.
pub proof fn losses_are_covered<E: HandEvaluator>(s: Setup, e: E, answers: Seq<Action>, k: int)
    requires
        finished(s, e, answers),
        ({
            let node = hand::played(s, e, answers).node;
            0 <= k < hand::outcome(s.hand_id, node.table, node.phase->deltas).seats.len()
        }),
    ensures
        ({
            let node = hand::played(s, e, answers).node;
            let o = hand::outcome(s.hand_id, node.table, node.phase->deltas).seats[k];
            &&& 0 <= o.seat < s.stacks.len()
            &&& s.stacks[o.seat] + o.chip_delta == node.table.seats[o.seat].stack
            &&& 0 <= s.stacks[o.seat] + o.chip_delta <= 2 * CHIP_LIMIT
            &&& -CHIP_LIMIT <= o.chip_delta <= CHIP_LIMIT
        }),
{
    hand_in_order(s, e, answers);
    let node = hand::played(s, e, answers).node;
    let t = node.table;
    let deltas = node.phase->deltas;
    let marks = hand::took_part_marks(t.seats);
    model::count_bounds(marks);
    let i = model::marked(marks)[k];
    assert(0 <= i < t.seats.len());
    assert(t.seats[i].stack == s.stacks[i] - t.seats[i].committed + deltas[i]);
    assert(0 <= deltas[i] <= CHIP_LIMIT);
    let all = progress::starting_stacks(s);
    model::total_bounds(all, all.len() as int);
    assert(all[i] <= model::total(all));
}

/// Up to the end of a hand a seat's chips, in front of it and in the middle, are what
/// it brought.
pub proof fn seats_keep_their_chips<E: HandEvaluator>(
    s: Setup,
    e: E,
    answers: Seq<Action>,
    seat: int,
)
    requires
        progress::setup_ok(s),
        deck::full_deck(deck::shuffled(s.deck_seed)),
        1 <= s.rules.big_blind,
        hand::answers_fit(s, e, answers),
        hand::played(s, e, answers).node.phase is Decision,
        0 <= seat < s.stacks.len(),
    ensures
        ({
            let t = hand::played(s, e, answers).node.table;
            &&& t.seats[seat].stack + t.seats[seat].committed == s.stacks[seat]
            &&& hand::chips_in_middle(t) == model::total(model::commitments(t.seats))
        }),
{
    hand_in_order(s, e, answers);
    assert(seat_kept(s, hand::played(s, e, answers).node.table, seat));
}

// ---------------------------------------------------------------------------
// Laws: cards
// ---------------------------------------------------------------------------

/// The seed fixes the deal: whatever the players do, a seat holds the cards it was
/// dealt, and the board is the run of cards behind the hole cards in the shuffled
/// deck, as far as it is dealt.
pub proof fn seed_fixes_the_deal<E: HandEvaluator>(s: Setup, e: E, answers: Seq<Action>)
    requires
        progress::setup_ok(s),
        deck::full_deck(deck::shuffled(s.deck_seed)),
        1 <= s.rules.big_blind,
        hand::answers_fit(s, e, answers),
    ensures
        ({
            let t = hand::played(s, e, answers).node.table;
            let d0 = hand::dealt_in(s).1;
            &&& t.board.len() <= 5
            &&& t.board == deck::shuffled(s.deck_seed).subrange(d0, d0 + t.board.len())
            &&& t.seats.len() == s.stacks.len()
            &&& forall|i: int|
                0 <= i < s.stacks.len() ==> (#[trigger] t.seats[i]).hole == hand::opening_table(
                    s,
                ).seats[i].hole
        }),
{
    hand_in_order(s, e, answers);
    let node = hand::played(s, e, answers).node;
    assert forall|i: int| 0 <= i < s.stacks.len() implies (#[trigger] node.table.seats[i]).hole
        == hand::opening_table(s).seats[i].hole by {
        if node.phase is Decision {
            assert(seat_kept(s, node.table, i));
        }
    }
}

/// Two branches of one hand see the same cards: every seat holds the same two, and
/// one board is the beginning of the other.
pub proof fn branches_share_the_deal<E: HandEvaluator>(
    s: Setup,
    e: E,
    a: Seq<Action>,
    b: Seq<Action>,
)
    requires
        progress::setup_ok(s),
        deck::full_deck(deck::shuffled(s.deck_seed)),
        1 <= s.rules.big_blind,
        hand::answers_fit(s, e, a),
        hand::answers_fit(s, e, b),
        hand::played(s, e, a).node.table.board.len() <= hand::played(
            s,
            e,
            b,
        ).node.table.board.len(),
    ensures
        ({
            let t = hand::played(s, e, a).node.table;
            let u = hand::played(s, e, b).node.table;
            &&& t.board == u.board.take(t.board.len() as int)
            &&& forall|i: int|
                0 <= i < s.stacks.len() ==> (#[trigger] t.seats[i]).hole == u.seats[i].hole
        }),
{
    seed_fixes_the_deal(s, e, a);
    seed_fixes_the_deal(s, e, b);
    let t = hand::played(s, e, a).node.table;
    let u = hand::played(s, e, b).node.table;
    progress::opening_is_sound(s);
    progress::dealt_in_is_sound(s);
    model::count_bounds(model::in_play_marks(progress::after_blinds(s).seats));
    assert(t.board =~= u.board.take(t.board.len() as int));
    assert forall|i: int| 0 <= i < s.stacks.len() implies (#[trigger] t.seats[i]).hole
        == u.seats[i].hole by {
        assert(u.seats[i].hole == hand::opening_table(s).seats[i].hole);
    }
}

/// No card is seen twice: the two cards of a player in play and the board are
/// different cards.
pub proof fn no_card_twice<E: HandEvaluator>(s: Setup, e: E, answers: Seq<Action>, seat: int)
    requires
        progress::setup_ok(s),
        deck::full_deck(deck::shuffled(s.deck_seed)),
        1 <= s.rules.big_blind,
        hand::answers_fit(s, e, answers),
        hand::played(s, e, answers).node.phase is Decision,
        0 <= seat < s.stacks.len(),
        model::in_play(hand::played(s, e, answers).node.table.seats[seat]),
    ensures
        hand::seven(hand::played(s, e, answers).node.table, seat).no_duplicates(),
{
    hand_in_order(s, e, answers);
}

// ---------------------------------------------------------------------------
// Laws: stepping and running
// ---------------------------------------------------------------------------

/// The node that a stepper reaches from `node` by `answers`.
pub open spec fn stepped_through<E: HandEvaluator>(
    rules: BettingRules,
    e: E,
    node: Node,
    answers: Seq<Action>,
) -> Node
    decreases answers.len(),
{
    if answers.len() == 0 {
        node
    } else {
        hand::stepped(
            rules,
            e,
            stepped_through(rules, e, node, answers.drop_last()),
            answers.last(),
        ).node
    }
}

/// Stepping through a hand answer by answer leads to where a run with the same
/// answers leads.
pub proof fn stepping_mirrors_running<E: HandEvaluator>(s: Setup, e: E, answers: Seq<Action>)
    ensures
        stepped_through(s.rules, e, hand::opened(s).node, answers) == hand::played(
            s,
            e,
            answers,
        ).node,
    decreases answers.len(),
{
    if answers.len() > 0 {
        stepping_mirrors_running(s, e, answers.drop_last());
    }
}

// ---------------------------------------------------------------------------
// Laws: betting
// ---------------------------------------------------------------------------

/// A legal action is carried out as submitted, but for a raise to all that the
/// player has, which is an all-in.
pub proof fn legal_actions_stand(
    rules: BettingRules,
    t: Table,
    seat: int,
    can_reopen: bool,
    action: Action,
)
    requires
        soundness::table_sound(t),
        0 <= seat < t.seats.len(),
        hand::legal_actions(rules, t, seat, can_reopen).allows(action),
    ensures
        hand::normalized(t, seat, action) == action || (action matches Action::Raise(amount)
            && hand::excess(amount as int, t.seats[seat].bet) >= t.seats[seat].stack
            && hand::normalized(t, seat, action) == Action::AllIn),
{
    soundness::amounts_within_limit(t);
    assert(soundness::seat_sound(t.seats[seat]));
}

/// Who has acted since the last full raise may not raise.
pub proof fn no_raise_after_response(rules: BettingRules, t: Table, seat: int)
    ensures
        !hand::legal_actions(rules, t, seat, false).can_raise,
{
}

/// An all-in that raises by less than a full raise, also together with the short
/// ones before it, does not reopen the betting: the minimum raise and everybody
/// else's response stay.
pub proof fn short_all_in_does_not_reopen(t: Table, seat: int, responded: Seq<bool>)
    requires
        0 <= seat < t.seats.len(),
        responded.len() == t.seats.len(),
        0 <= t.short,
        t.increment <= CHIP_LIMIT,
        ({
            let more = t.seats[seat].bet + t.seats[seat].stack - t.current_bet;
            0 < more < t.increment && t.short + more < t.increment
        }),
    ensures
        ({
            let (u, reopened, notes) = hand::action_effect(t, seat, Action::AllIn);
            &&& !reopened
            &&& u.increment == t.increment
            &&& u.current_bet == t.seats[seat].bet + t.seats[seat].stack
            &&& forall|i: int|
                0 <= i < responded.len() && i != seat ==> #[trigger] hand::responses(
                    responded,
                    seat,
                    reopened,
                )[i] == responded[i]
        }),
{
}

/// Short all-ins that together make up a full raise reopen the betting for everybody
/// else, and the minimum raise still stays.
pub proof fn short_all_ins_add_up(t: Table, seat: int, responded: Seq<bool>)
    requires
        0 <= seat < t.seats.len(),
        responded.len() == t.seats.len(),
        t.increment <= CHIP_LIMIT,
        ({
            let more = t.seats[seat].bet + t.seats[seat].stack - t.current_bet;
            0 < more < t.increment && t.short + more >= t.increment
        }),
    ensures
        ({
            let (u, reopened, notes) = hand::action_effect(t, seat, Action::AllIn);
            &&& reopened
            &&& u.increment == t.increment
            &&& forall|i: int|
                0 <= i < responded.len() && i != seat ==> !(#[trigger] hand::responses(
                    responded,
                    seat,
                    reopened,
                )[i])
        }),
{
}

/// A full raise sets the minimum for the next one and reopens the betting.
pub proof fn full_raise_reopens(t: Table, seat: int, amount: u32)
    requires
        soundness::table_sound(t),
        0 <= seat < t.seats.len(),
        soundness::proper(t, seat, Action::Raise(amount)),
        t.seats[seat].bet <= amount,
    ensures
        ({
            let (u, reopened, notes) = hand::action_effect(t, seat, Action::Raise(amount));
            &&& reopened
            &&& u.current_bet == amount
            &&& u.increment == amount - t.current_bet
            &&& u.short == 0
        }),
{
}

/// A player who has not responded yet is asked, though even with the bet: the big
/// blind keeps its option.
pub proof fn unasked_players_are_asked(t: Table, responded: Seq<bool>, seat: int)
    requires
        0 <= seat < t.seats.len(),
        t.seats[seat].status == PlayerStatus::Active,
        !responded[seat],
    ensures
        hand::unsettled_marks(t, responded)[seat],
{
}

/// What a player sees does not depend on anybody else's cards.
pub proof fn sight_hides_other_hands(
    rules: BettingRules,
    t: Table,
    u: Table,
    responded: Seq<bool>,
    seat: int,
)
    requires
        u == (Table { seats: u.seats, ..t }),
        u.seats.len() == t.seats.len(),
        0 <= seat < t.seats.len(),
        u.seats[seat] == t.seats[seat],
        forall|i: int|
            0 <= i < t.seats.len() ==> #[trigger] u.seats[i] == (Seat {
                hole: u.seats[i].hole,
                ..t.seats[i]
            }),
    ensures
        hand::sight(rules, u, responded, seat) == hand::sight(rules, t, responded, seat),
{
    assert(hand::public_view(u.seats) =~= hand::public_view(t.seats));
}

// ---------------------------------------------------------------------------
// Laws: from hand to hand
// ---------------------------------------------------------------------------

/// From hand to hand no seat's stack turns negative, a seat without chips stays
/// without, and the stacks together never grow.
pub proof fn stacks_never_grow<E: HandEvaluator>(s: Setup, e: E, answers: Seq<Action>)
    requires
        finished(s, e, answers),
    ensures
        ({
            let t = hand::played(s, e, answers).node.table;
            &&& t.seats.len() == s.stacks.len()
            &&& model::total(model::stacks(t.seats)) <= model::total(progress::starting_stacks(s))
            &&& forall|i: int|
                0 <= i < t.seats.len() ==> {
                    &&& 0 <= (#[trigger] t.seats[i]).stack <= CHIP_LIMIT
                    &&& s.stacks[i] == 0 ==> t.seats[i].stack == 0
                    &&& t.seats[i].status == PlayerStatus::Out ==> t.seats[i].stack == s.stacks[i]
                }
        }),
{
    hand_in_order(s, e, answers);
    let node = hand::played(s, e, answers).node;
    let t = node.table;
    let deltas = node.phase->deltas;
    let n = t.seats.len();
    let cs = model::commitments(t.seats);
    let net: Seq<int> = Seq::new(n, |i: int| deltas[i] - cs[i]);
    model::total_sum(net, cs, deltas);
    let ss = model::stacks(t.seats);
    assert forall|i: int| 0 <= i < n implies ss[i] == progress::starting_stacks(s)[i] + net[i] by {
        assert(t.seats[i].stack == s.stacks[i] - t.seats[i].committed + deltas[i]);
    }
    model::total_sum(progress::starting_stacks(s), net, ss);
    assert forall|i: int| 0 <= i < n implies ss[i] >= 0 by {
        assert(0 <= deltas[i] <= CHIP_LIMIT);
        assert(t.seats[i].committed <= s.stacks[i]);
    }
    model::total_bounds(ss, n as int);
    assert forall|i: int| 0 <= i < n implies {
        &&& 0 <= (#[trigger] t.seats[i]).stack <= CHIP_LIMIT
        &&& s.stacks[i] == 0 ==> t.seats[i].stack == 0
        &&& t.seats[i].status == PlayerStatus::Out ==> t.seats[i].stack == s.stacks[i]
    } by {
        assert(ss[i] == t.seats[i].stack);
        assert(0 <= deltas[i] && 0 <= t.seats[i].committed);
    }
}

/// Who is marked in `a` is marked in `b`: then `b` marks at least as many.
pub proof fn more_marks_count_more(a: Seq<bool>, b: Seq<bool>)
    requires
        a.len() == b.len(),
        forall|i: int| 0 <= i < a.len() && #[trigger] a[i] ==> b[i],
    ensures
        model::count(a) <= model::count(b),
    decreases a.len(),
{
    if a.len() > 0 {
        assert(a[a.len() - 1] ==> b[b.len() - 1]);
        assert forall|i: int| 0 <= i < a.len() - 1 && #[trigger] a.drop_last()[i] implies b.drop_last()[i] by {
            assert(a[i]);
        }
        more_marks_count_more(a.drop_last(), b.drop_last());
    }
}

/// Where nobody can act, nobody pays an ante.
proof fn no_antes_without_actives(t: Table, ante: int, n: int)
    requires
        0 <= n <= t.seats.len(),
        forall|i: int|
            0 <= i < t.seats.len() ==> (#[trigger] t.seats[i]).status != PlayerStatus::Active,
    ensures
        hand::with_antes(t, ante, n).0 == t,
    decreases n,
{
    if n > 0 {
        no_antes_without_actives(t, ante, n - 1);
    }
}

/// Who can sit down can play: a table with a dealer, without dead hands, and with
/// cards for everybody who has chips, opens a hand.
pub proof fn funded_tables_open(s: Setup)
    requires
        progress::seating_ok(s),
        s.dealer < s.stacks.len(),
        s.kinds is None,
        2 * model::count(hand::funded(s.stacks)) + 5 <= 52,
    ensures
        progress::setup_ok(s),
{
    progress::after_blinds_is_sound(s);
    let t = progress::after_blinds(s);
    let order = deck::shuffled(s.deck_seed);
    let n = s.stacks.len() as int;
    let marks = model::in_play_marks(t.seats);
    progress::holes_take_two_each(t, order, n);
    assert(marks.take(n) =~= marks);
    let (u, d, notes) = hand::with_holes(t, order, 0, n);
    assert(hand::dealt_in(s).0 == u && hand::dealt_in(s).1 == d);
    assert(model::in_play_marks(u.seats) =~= marks) by {
        assert forall|i: int| 0 <= i < n implies model::in_play_marks(u.seats)[i] == marks[i] by {
            assert(u.seats[i] == (Seat { hole: u.seats[i].hole, ..t.seats[i] }));
        }
    }
    if exists|i: int| 0 <= i < s.stacks.len() && #[trigger] s.stacks[i] > 0 {
        blinds_keep_rule(s);
        assert forall|i: int| 0 <= i < n && #[trigger] marks[i] implies hand::funded(s.stacks)[i] by {
            assert(model::in_play(t.seats[i]));
        }
        more_marks_count_more(marks, hand::funded(s.stacks));
    } else {
        penniless_table_has_one(s);
    }
}

/// After a hand no more seats have chips than before it.
pub proof fn fewer_stay_funded(before: Seq<u32>, after: Seq<u32>)
    requires
        before.len() == after.len(),
        forall|i: int| 0 <= i < before.len() && #[trigger] before[i] == 0 ==> after[i] == 0,
    ensures
        model::count(hand::funded(after)) <= model::count(hand::funded(before)),
{
    assert forall|i: int| 0 <= i < before.len() && #[trigger] hand::funded(after)[i] implies hand::funded(
        before,
    )[i] by {
        assert(before[i] == 0 ==> after[i] == 0);
    }
    more_marks_count_more(hand::funded(after), hand::funded(before));
}

} // verus!
