//! Who is still in: a hand that two or more contest leaves somebody to win it.

use vstd::prelude::*;

use crate::cards::{deck, Card, HandEvaluator};
use crate::game::action::Action;
use crate::game::hand;
use crate::game::hand::{Next, Node, Phase, Setup};
use crate::game::laws;
use crate::game::model;
use crate::game::model::Table;
use crate::game::progress;
use crate::game::rules::BettingRules;
use crate::game::soundness;

verus! {

/// Two or more are in when the hand opens, or nobody is asked. What is left out is a
/// lone live player among dead hands, who can fold to nobody.
pub open spec fn contested(s: Setup) -> bool {
    hand::still_in(hand::opening_table(s)) >= 2 || hand::first_asked(s) is None
}

/// Dealing streets changes nothing about who is in.
proof fn streets_keep_players<E: HandEvaluator>(
    rules: BettingRules,
    e: E,
    t: Table,
    order: Seq<Card>,
    dealt: int,
)
    ensures
        hand::still_in(hand::streets(rules, e, t, order, dealt).node.table) == hand::still_in(t),
    decreases hand::streets_left(t.street),
{
    let marks = model::in_play_marks(t.seats);
    match hand::next_street(t.street) {
        None => {
            let u = hand::streets(rules, e, t, order, dealt).node.table;
            assert(model::in_play_marks(u.seats) =~= marks);
        },
        Some((street, n)) => {
            let t1 = hand::street_dealt(rules, t, order, dealt, street, n);
            assert(model::in_play_marks(t1.seats) =~= marks);
            assert(model::in_play_marks(hand::collected(t1).seats) =~= marks);
            streets_keep_players(rules, e, hand::collected(t1), order, dealt + n);
        },
    }
}

/// Taking the pot changes nothing about who is in.
proof fn winning_keeps_players(t: Table, winner: int)
    requires
        0 <= winner < t.seats.len(),
    ensures
        hand::still_in(hand::won(t, Some(winner)).0) == hand::still_in(t),
{
    let u = hand::won(t, Some(winner)).0;
    assert(model::in_play_marks(u.seats) =~= model::in_play_marks(t.seats));
}

/// At a decision two or more are in; at the end somebody is.
pub open spec fn alive(node: Node) -> bool {
    match node.phase {
        Phase::Decision { .. } => hand::still_in(node.table) >= 2,
        Phase::Terminal { .. } => hand::still_in(node.table) >= 1,
    }
}

proof fn opening_is_alive(s: Setup)
    requires
        progress::setup_ok(s),
        deck::full_deck(deck::shuffled(s.deck_seed)),
        contested(s),
    ensures
        alive(hand::opened(s).node),
{
    let t = hand::opening_table(s);
    progress::opening_table_is_sound(s);
    progress::opening_is_sound(s);
    match hand::first_asked(s) {
        Some(first) => {
            assert(hand::opened(s).node.table.seats == t.seats);
        },
        None => {
            let marks = model::in_play_marks(t.seats);
            soundness::none_marked_counts_zero(marks);
            soundness::first_marked_finds(marks, 0);
            winning_keeps_players(t, hand::first_marked(marks, 0)->0);
        },
    }
}

proof fn step_stays_alive<E: HandEvaluator>(rules: BettingRules, e: E, node: Node, raw: Action)
    requires
        soundness::node_sound(node),
        node.phase is Decision,
        alive(node),
    ensures
        alive(hand::stepped(rules, e, node, raw).node),
{
    let seat = node.phase->seat;
    let action = hand::normalized(node.table, seat, raw);
    soundness::normalized_is_proper(node.table, seat, raw);
    soundness::action_keeps_table(node.table, seat, action);
    let m = hand::acted(node, raw);
    let t = m.table;
    let before = model::in_play_marks(node.table.seats);
    let after = model::in_play_marks(t.seats);
    assert(after =~= before.update(seat, after[seat])) by {
        assert forall|i: int| 0 <= i < after.len() implies after[i] == before.update(
            seat,
            after[seat],
        )[i] by {
            if i != seat {
                assert(t.seats[i] == node.table.seats[i]);
            }
        }
    }
    model::count_update(before, seat, after[seat]);
    progress::next_is_a_seat(t, m.phase->responded, seat);
    match hand::next_after(t, m.phase->responded, seat) {
        Next::Won(w) => {
            winning_keeps_players(t, w);
        },
        Next::Asks(next) => {
            let u = hand::stepped(rules, e, node, raw).node.table;
            assert(u.seats == t.seats);
        },
        Next::RoundOver => {
            let c = Table { action_on: None, ..hand::collected(t) };
            assert(model::in_play_marks(c.seats) =~= after);
            streets_keep_players(rules, e, c, node.order, node.dealt);
            let done = hand::stepped(rules, e, node, raw).node;
            assert(hand::still_in(done.table) >= 2);
        },
    }
}

/// A contested hand never runs out of players: at every decision two or more are in,
/// and at the end somebody is left to take the pot.
pub proof fn somebody_stays_in<E: HandEvaluator>(s: Setup, e: E, answers: Seq<Action>)
    requires
        progress::setup_ok(s),
        deck::full_deck(deck::shuffled(s.deck_seed)),
        contested(s),
        hand::answers_fit(s, e, answers),
    ensures
        alive(hand::played(s, e, answers).node),
        soundness::node_sound(hand::played(s, e, answers).node),
    decreases answers.len(),
{
    if answers.len() == 0 {
        opening_is_alive(s);
        progress::opening_is_sound(s);
    } else {
        let before = answers.drop_last();
        laws::fewer_answers_fit(s, e, answers);
        somebody_stays_in(s, e, before);
        let node = hand::played(s, e, before).node;
        step_stays_alive(s.rules, e, node, answers.last());
        progress::step_is_sound(s.rules, e, node, answers.last());
    }
}

/// A table without dead hands is contested.
pub proof fn live_tables_are_contested(s: Setup)
    requires
        progress::setup_ok(s),
        deck::full_deck(deck::shuffled(s.deck_seed)),
        s.kinds is None,
    ensures
        contested(s),
{
    let t = hand::opening_table(s);
    let marks = hand::funded(s.stacks);
    laws::opening_players_took_blinds(s);
    progress::opening_table_is_sound(s);
    soundness::none_marked_counts_zero(marks);
    if model::count(marks) == 0 {
        // Nobody has chips, so nobody can act.
        progress::after_blinds_is_sound(s);
        let act = model::active_marks(t.seats);
        assert forall|i: int| 0 <= i < act.len() implies !act[i] by {
            let q = progress::after_blinds(s).seats[i];
            assert(!marks[i]);
            assert(progress::brought(q) == s.stacks[i]);
            assert(soundness::seat_sound(t.seats[i]));
            assert(t.seats[i].status == q.status);
            assert(t.seats[i].stack == q.stack && t.seats[i].committed == q.committed);
        }
        soundness::next_marked_finds(act, hand::big_blind_seat(hand::dealt_in(s).0));
    } else if model::count(marks) >= 2 {
        funded_seats_are_in(s);
    }
}

/// Everybody who brought chips is in after the blinds.
proof fn funded_seats_are_in(s: Setup)
    requires
        progress::seating_ok(s),
    ensures
        model::count(hand::funded(s.stacks)) <= hand::still_in(progress::after_blinds(s)),
{
    let t0 = hand::fresh_table(s);
    let n = s.stacks.len() as int;
    progress::fresh_is_sound(s);
    progress::before_blinds_is_sound(s);
    progress::after_blinds_is_sound(s);
    antes_keep_players(t0, s, s.rules.ante as int, n);
    let t = progress::before_blinds(s);
    progress::blind_seats(t);
    let sb = hand::small_blind_seat(t);
    let bb = hand::big_blind_seat(t);
    progress::posting_is_sound(t, s, sb, s.rules.small_blind as int);
    let t1 = hand::posted(t, sb, s.rules.small_blind as int);
    progress::posting_is_sound(t1, s, bb, s.rules.big_blind as int);
    let t2 = progress::after_blinds(s);
    let marks = hand::funded(s.stacks);
    let after = model::in_play_marks(t2.seats);
    assert forall|i: int| 0 <= i < n && #[trigger] marks[i] implies after[i] by {
        assert(model::in_play(t0.seats[i]));
        assert(model::in_play(t.seats[i]));
        assert(model::in_play(t1.seats[i]));
    }
    laws::more_marks_count_more(marks, after);
}

proof fn antes_keep_players(t: Table, s: Setup, ante: int, n: int)
    requires
        progress::opening_sound(t, s),
        0 <= ante,
        0 <= n <= t.seats.len(),
    ensures
        hand::with_antes(t, ante, n).0.seats.len() == t.seats.len(),
        forall|j: int|
            0 <= j < t.seats.len() && model::in_play(#[trigger] t.seats[j]) ==> model::in_play(
                hand::with_antes(t, ante, n).0.seats[j],
            ),
    decreases n,
{
    if n > 0 {
        antes_keep_players(t, s, ante, n - 1);
        progress::antes_are_sound(t, s, ante, n - 1);
        let t1 = hand::with_antes(t, ante, n - 1).0;
        progress::posting_is_sound(t1, s, n - 1, ante);
        assert forall|j: int|
            0 <= j < t.seats.len() && model::in_play(#[trigger] t.seats[j]) implies model::in_play(
            hand::with_antes(t, ante, n).0.seats[j],
        ) by {
            assert(model::in_play(t1.seats[j]));
        }
    }
}

} // verus!
