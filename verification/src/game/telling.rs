//! What sinks and agents are told: exactly what happens.

use vstd::prelude::*;

use crate::agent::Call;
use crate::cards::{Card, HandEvaluator};
use crate::game::action::Action;
use crate::game::hand;
use crate::game::hand::{Node, Phase, Setup, CHIP_LIMIT};
use crate::game::model;
use crate::game::model::{Event, Table};
use crate::game::play;
use crate::game::progress;
use crate::game::rules::BettingRules;
use crate::game::soundness;
use crate::game::state::{PlayerStatus, Street};

verus! {

/// The board cards that `events` tell of, in order.
pub open spec fn board_told(events: Seq<Event>) -> Seq<Card>
    decreases events.len(),
{
    if events.len() == 0 {
        Seq::empty()
    } else {
        let before = board_told(events.drop_last());
        match events.last() {
            Event::BoardDealt { cards, .. } => before + cards,
            _ => before,
        }
    }
}

/// Those of `events` that players hear of: actions and deals of board cards.
pub open spec fn public_news(events: Seq<Event>) -> Seq<Event>
    decreases events.len(),
{
    if events.len() == 0 {
        Seq::empty()
    } else {
        let before = public_news(events.drop_last());
        match events.last() {
            Event::BoardDealt { .. } => before.push(events.last()),
            Event::ActionTaken { .. } => before.push(events.last()),
            _ => before,
        }
    }
}

/// What `calls` tell all agents, in order.
pub open spec fn heard(calls: Seq<Call>) -> Seq<Event>
    decreases calls.len(),
{
    if calls.len() == 0 {
        Seq::empty()
    } else {
        let before = heard(calls.drop_last());
        match calls.last() {
            Call::Tell { event } => before.push(event),
            _ => before,
        }
    }
}

/// The answers that `calls` asked for, in order.
pub open spec fn answered(calls: Seq<Call>) -> Seq<Action>
    decreases calls.len(),
{
    if calls.len() == 0 {
        Seq::empty()
    } else {
        let before = answered(calls.drop_last());
        match calls.last() {
            Call::Ask { action, .. } => before.push(action),
            _ => before,
        }
    }
}

proof fn told_in_turn(a: Seq<Event>, b: Seq<Event>)
    ensures
        board_told(a + b) == board_told(a) + board_told(b),
        public_news(a + b) == public_news(a) + public_news(b),
    decreases b.len(),
{
    if b.len() == 0 {
        assert(a + b =~= a);
        assert(board_told(a) + board_told(b) =~= board_told(a));
        assert(public_news(a) + public_news(b) =~= public_news(a));
    } else {
        told_in_turn(a, b.drop_last());
        assert((a + b).drop_last() =~= a + b.drop_last());
        assert(board_told(a + b) =~= board_told(a) + board_told(b));
        assert(public_news(a + b) =~= public_news(a) + public_news(b));
    }
}

proof fn heard_in_turn(a: Seq<Call>, b: Seq<Call>)
    ensures
        heard(a + b) == heard(a) + heard(b),
        answered(a + b) == answered(a) + answered(b),
    decreases b.len(),
{
    if b.len() == 0 {
        assert(a + b =~= a);
        assert(heard(a) + heard(b) =~= heard(a));
        assert(answered(a) + answered(b) =~= answered(a));
    } else {
        heard_in_turn(a, b.drop_last());
        assert((a + b).drop_last() =~= a + b.drop_last());
        assert(heard(a + b) =~= heard(a) + heard(b));
        assert(answered(a + b) =~= answered(a) + answered(b));
    }
}

proof fn told_alone(event: Event)
    ensures
        board_told(seq![event]) == (match event {
            Event::BoardDealt { cards, .. } => cards,
            _ => Seq::<Card>::empty(),
        }),
        public_news(seq![event]) == (if event is BoardDealt || event is ActionTaken {
            seq![event]
        } else {
            Seq::<Event>::empty()
        }),
{
    let one = seq![event];
    assert(board_told(one.drop_last()) =~= Seq::<Card>::empty());
    assert(public_news(one.drop_last()) =~= Seq::<Event>::empty());
    if let Event::BoardDealt { cards, .. } = event {
        assert(Seq::<Card>::empty() + cards =~= cards);
    }
    assert(public_news(one) =~= if event is BoardDealt || event is ActionTaken {
        seq![event]
    } else {
        Seq::<Event>::empty()
    });
}

proof fn heard_alone(call: Call)
    ensures
        heard(seq![call]) == (match call {
            Call::Tell { event } => seq![event],
            _ => Seq::<Event>::empty(),
        }),
        answered(seq![call]) == (match call {
            Call::Ask { action, .. } => seq![action],
            _ => Seq::<Action>::empty(),
        }),
{
    let one = seq![call];
    assert(heard(one.drop_last()) =~= Seq::<Event>::empty());
    assert(answered(one.drop_last()) =~= Seq::<Action>::empty());
    assert(heard(one) =~= match call {
        Call::Tell { event } => seq![event],
        _ => Seq::<Event>::empty(),
    });
    assert(answered(one) =~= match call {
        Call::Ask { action, .. } => seq![action],
        _ => Seq::<Action>::empty(),
    });
}

/// What an answer is announced as. The announcement names the seat, what was made of the
/// answer, and all chips that were put in so far. Where it takes the player's last chip,
/// that is announced before it, with all that the player has put in; nothing else is
/// announced with it.
pub proof fn answers_are_announced(node: Node, raw: Action)
    requires
        soundness::node_sound(node),
        node.phase is Decision,
    ensures
        ({
            let seat = node.phase->seat;
            let t = node.table;
            let u = hand::acted(node, raw).table;
            let (p, q) = (t.seats[seat], u.seats[seat]);
            let events = hand::acted_events(node, raw);
            &&& events.len() == if q.stack == 0 { 2int } else { 1int }
            &&& events.last() matches Event::ActionTaken { seat: s, action, pot_total }
            &&& s == seat
            &&& pot_total == model::total(model::commitments(u.seats))
            &&& !(raw is Raise) ==> action == raw
            &&& raw matches Action::Raise(n) ==> {
                &&& n >= p.bet + p.stack ==> action == Action::AllIn
                &&& n < p.bet + p.stack && n >= t.current_bet + t.increment ==> action == raw
                &&& n < p.bet + p.stack && n < t.current_bet + t.increment ==> action == if p.bet
                    >= t.current_bet {
                    Action::Check
                } else {
                    Action::Call
                }
            }
            &&& q.stack == 0 ==> events[0] == (Event::PlayerAllIn {
                seat,
                total_committed: q.committed,
            })
        }),
{
    let seat = node.phase->seat;
    soundness::amounts_within_limit(node.table);
    assert(soundness::seat_sound(node.table.seats[seat]));
    soundness::normalized_is_proper(node.table, seat, raw);
    soundness::action_keeps_table(node.table, seat, hand::normalized(node.table, seat, raw));
}

/// The streets after a finished round: what is announced is what is added to the board, and
/// agents hear of it while two or more are in.
proof fn streets_are_told<E: HandEvaluator>(
    rules: BettingRules,
    e: E,
    t: Table,
    order: Seq<Card>,
    dealt: int,
)
    requires
        progress::between_rounds(t, order, dealt),
        rules.big_blind <= CHIP_LIMIT,
    ensures
        ({
            let p = hand::streets(rules, e, t, order, dealt);
            &&& p.node.table.board == t.board + board_told(p.events)
            &&& answered(p.calls) == Seq::<Action>::empty()
            &&& hand::still_in(t) >= 2 ==> heard(p.calls) == public_news(p.events)
        }),
    decreases hand::streets_left(t.street),
{
    let p = hand::streets(rules, e, t, order, dealt);
    match hand::next_street(t.street) {
        None => {
            assert(t.board =~= t.board + Seq::<Card>::empty());
            assert(heard(p.calls) =~= public_news(p.events));
        },
        Some((street, n)) => {
            let event = hand::board_event(order, dealt, street, n);
            let calls = hand::board_calls(t, event);
            told_alone(event);
            progress::street_is_sound(rules, t, order, dealt, street, n);
            let t1 = hand::street_dealt(rules, t, order, dealt, street, n);
            if hand::still_in(t) >= 2 {
                heard_alone(Call::Tell { event });
            }
            let marks = model::active_marks(t1.seats);
            let first = hand::next_marked(marks, t1.dealer as int, 1);
            if !(model::count(marks) >= 2 && first is Some) {
                progress::nothing_to_collect(t1);
                let c = hand::collected(t1);
                assert(model::in_play_marks(c.seats) =~= model::in_play_marks(t.seats));
                streets_are_told(rules, e, c, order, dealt + n);
                let later = hand::streets(rules, e, c, order, dealt + n);
                told_in_turn(seq![event], later.events);
                heard_in_turn(calls, later.calls);
                assert(t.board + order.subrange(dealt, dealt + n) + board_told(later.events)
                    =~= t.board + board_told(p.events));
                assert(answered(p.calls) =~= Seq::<Action>::empty());
            }
        },
    }
}

/// One answer and what follows: the cards that are announced are those that are added to
/// the board; the agents hear, in order, of the action and of every deal of board cards, as
/// long as somebody is left to play; and one answer was asked for.
pub proof fn steps_are_told<E: HandEvaluator>(rules: BettingRules, e: E, node: Node, raw: Action)
    requires
        soundness::node_sound(node),
        node.phase is Decision,
        rules.big_blind <= CHIP_LIMIT,
    ensures
        ({
            let p = hand::stepped(rules, e, node, raw);
            &&& p.node.table.board == node.table.board + board_told(p.events)
            &&& answered(p.calls) == seq![raw]
            &&& hand::still_in(hand::acted(node, raw).table) >= 1 ==> heard(p.calls)
                == public_news(p.events)
        }),
{
    let p = hand::stepped(rules, e, node, raw);
    let m = hand::acted(node, raw);
    let seat = node.phase->seat;
    progress::acting_is_sound(node, raw);
    soundness::normalized_is_proper(node.table, seat, raw);
    soundness::action_keeps_table(node.table, seat, hand::normalized(node.table, seat, raw));
    answers_are_announced(node, raw);
    let events = hand::acted_events(node, raw);
    let calls = hand::acted_calls(rules, node, raw);
    let news = hand::acted_event(node, raw);
    told_alone(news);
    if events.len() == 2 {
        told_alone(events[0]);
        told_in_turn(seq![events[0]], seq![news]);
        assert(events =~= seq![events[0]] + seq![news]);
        assert(public_news(events) =~= seq![news]);
        assert(board_told(events) =~= Seq::<Card>::empty());
    } else {
        assert(events =~= seq![news]);
    }
    heard_alone(calls[0]);
    heard_alone(calls[1]);
    heard_in_turn(seq![calls[0]], seq![calls[1]]);
    assert(calls =~= seq![calls[0]] + seq![calls[1]]);
    assert(heard(calls) =~= seq![news]);
    assert(answered(calls) =~= seq![raw]);
    let after = hand::advanced(rules, e, m);
    told_in_turn(events, after.events);
    heard_in_turn(calls, after.calls);
    progress::collected_is_between_rounds(m.table, m.order, m.dealt);
    let c = Table { action_on: None, ..hand::collected(m.table) };
    progress::same_but_for_action_on(hand::collected(m.table), c, m.order, m.dealt);
    assert(model::in_play_marks(c.seats) =~= model::in_play_marks(m.table.seats));
    streets_are_told(rules, e, c, m.order, m.dealt);
    assert(p.node.table.board =~= node.table.board + board_told(p.events));
    assert(answered(p.calls) =~= seq![raw]);
    if hand::still_in(m.table) >= 1 {
        assert(heard(p.calls) =~= public_news(p.events));
    }
}

/// Over a whole hand: the board on the table is, in order, what was announced since the
/// start, and the agents were asked for exactly the answers that were given, in order.
pub proof fn hands_are_told<E: HandEvaluator>(s: Setup, e: E, answers: Seq<Action>)
    requires
        progress::setup_ok(s),
        crate::cards::deck::full_deck(crate::cards::deck::shuffled(s.deck_seed)),
        1 <= s.rules.big_blind,
        hand::answers_fit(s, e, answers),
    ensures
        ({
            let p = hand::played(s, e, answers);
            &&& p.node.table.board == board_told(p.events)
            &&& answered(p.calls) == answers
        }),
    decreases answers.len(),
{
    let p = hand::played(s, e, answers);
    if answers.len() == 0 {
        crate::game::laws::hand_in_order(s, e, answers);
        openings_show_no_board(s);
        progress::opening_table_is_sound(s);
        assert(p.node.table.board =~= board_told(p.events));
        assert(answered(p.calls) =~= answers);
    } else {
        let head = answers.drop_last();
        crate::game::laws::fewer_answers_fit(s, e, answers);
        hands_are_told(s, e, head);
        crate::game::laws::hand_in_order(s, e, head);
        let before = hand::played(s, e, head);
        steps_are_told(s.rules, e, before.node, answers.last());
        let step = hand::stepped(s.rules, e, before.node, answers.last());
        told_in_turn(before.events, step.events);
        heard_in_turn(before.calls, step.calls);
        assert(answered(p.calls) =~= answers);
    }
}

proof fn openings_show_no_board(s: Setup)
    ensures
        board_told(hand::opening_events(s)) == Seq::<Card>::empty(),
{
    let n = s.stacks.len() as int;
    let e1 = if s.rules.ante > 0 {
        hand::with_antes(hand::fresh_table(s), s.rules.ante as int, n).1
    } else {
        Seq::empty()
    };
    if s.rules.ante > 0 {
        antes_show_no_board(hand::fresh_table(s), s.rules.ante as int, n);
    }
    let t1 = progress::before_blinds(s);
    let e2 = hand::with_blinds(t1, s.rules).1;
    blinds_show_no_board(t1, s.rules);
    let order = crate::cards::deck::shuffled(s.deck_seed);
    let t2 = progress::after_blinds(s);
    let e3 = hand::with_holes(t2, order, 0, n).2;
    holes_show_no_board(t2, order, n);
    let start = Event::HandStarted {
        hand_id: s.hand_id,
        dealer: s.dealer,
        deck_seed: s.deck_seed,
    };
    told_alone(start);
    told_in_turn(e1, e2);
    told_in_turn(e1 + e2, e3);
    told_in_turn(seq![start], e1 + e2 + e3);
    assert(hand::dealt_in(s).2 == e1 + e2 + e3);
    assert(board_told(hand::opening_events(s)) =~= Seq::<Card>::empty());
}

proof fn antes_show_no_board(t: Table, ante: int, n: int)
    ensures
        board_told(hand::with_antes(t, ante, n).1) == Seq::<Card>::empty(),
    decreases n,
{
    if n > 0 {
        antes_show_no_board(t, ante, n - 1);
        let (t1, notes) = hand::with_antes(t, ante, n - 1);
        let t2 = hand::posted(t1, n - 1, ante);
        note_shows_no_board(t2, n - 1);
        told_in_turn(notes, hand::all_in_note(t2, n - 1));
        assert(board_told(hand::with_antes(t, ante, n).1) =~= Seq::<Card>::empty());
    }
}

proof fn note_shows_no_board(t: Table, i: int)
    ensures
        board_told(hand::all_in_note(t, i)) == Seq::<Card>::empty(),
{
    if t.seats[i].stack == 0 {
        told_alone(Event::PlayerAllIn { seat: i, total_committed: t.seats[i].committed });
    }
}

proof fn blinds_show_no_board(t: Table, rules: BettingRules)
    ensures
        board_told(hand::with_blinds(t, rules).1) == Seq::<Card>::empty(),
{
    let sb = hand::small_blind_seat(t);
    let bb = hand::big_blind_seat(t);
    let t1 = hand::posted(t, sb, rules.small_blind as int);
    let t2 = hand::posted(t1, bb, rules.big_blind as int);
    note_shows_no_board(t1, sb);
    note_shows_no_board(t2, bb);
    told_in_turn(hand::all_in_note(t1, sb), hand::all_in_note(t2, bb));
    assert(board_told(hand::with_blinds(t, rules).1) =~= Seq::<Card>::empty());
}

proof fn holes_show_no_board(t: Table, order: Seq<Card>, n: int)
    ensures
        board_told(hand::with_holes(t, order, 0, n).2) == Seq::<Card>::empty(),
    decreases n,
{
    if n > 0 {
        holes_show_no_board(t, order, n - 1);
        let (t1, d, notes) = hand::with_holes(t, order, 0, n - 1);
        if model::in_play(t1.seats[n - 1]) {
            let event = Event::HoleCardsDealt { seat: n - 1, hole: (order[d], order[d + 1]) };
            assert(notes.push(event).drop_last() =~= notes);
        }
    }
}

/// What an agent sees when it is asked: its own two cards, the board, the pot, and of every
/// seat the chips in front of it, its bet, and whether it folded or is all-in. The seat is
/// its own, and the offer is that of the table.
pub proof fn sights_show_the_table(rules: BettingRules, node: Node, i: int)
    requires
        soundness::node_sound(node),
        node.phase is Decision,
        0 <= i < node.table.seats.len(),
    ensures
        ({
            let t = node.table;
            let seat = node.phase->seat;
            let sight = hand::sight(rules, t, node.phase->responded, seat);
            let q = sight.players[i];
            &&& sight.position == seat && sight.dealer == t.dealer
            &&& t.seats[seat].hole == Some(sight.hole)
            &&& sight.board == t.board && sight.street == t.street
            &&& sight.main == t.main && sight.side == t.side
            &&& sight.players.len() == t.seats.len()
            &&& q.seat == i
            &&& q.stack == t.seats[i].stack
            &&& q.bet_this_street == t.seats[i].bet
            &&& q.is_folded <==> t.seats[i].status == PlayerStatus::Folded
            &&& q.is_all_in <==> t.seats[i].status == PlayerStatus::AllIn
        }),
{
    soundness::amounts_within_limit(node.table);
    assert(soundness::seat_sound(node.table.seats[i]));
    assert(model::in_play(node.table.seats[node.phase->seat]));
}

/// The result of a hand repeats what the table holds: the board, and for each seat that
/// took part its cards, whether it sat out, and what it was awarded less what it had put
/// in. Seats are listed in order, each once.
pub proof fn results_repeat_the_table(hand_id: u64, t: Table, deltas: Seq<int>, i: int)
    requires
        0 <= i < t.seats.len(),
    ensures
        ({
            let r = hand::outcome(hand_id, t, deltas);
            &&& r.hand_id == hand_id
            &&& r.board == t.board
            &&& t.seats[i].status != PlayerStatus::Out <==> exists|k: int|
                0 <= k < r.seats.len() && (#[trigger] r.seats[k]).seat == i
            &&& forall|k: int|
                0 <= k < r.seats.len() && (#[trigger] r.seats[k]).seat == i ==> {
                    &&& r.seats[k].hole == t.seats[i].hole
                    &&& r.seats[k].chip_delta == deltas[i] - t.seats[i].committed
                    &&& r.seats[k].sat_out == t.sat_out[i]
                }
            &&& forall|j: int, k: int|
                0 <= j < k < r.seats.len() ==> (#[trigger] r.seats[j]).seat < (
                #[trigger] r.seats[k]).seat
        }),
{
    let r = hand::outcome(hand_id, t, deltas);
    let marks = hand::took_part_marks(t.seats);
    let listed = model::marked(marks);
    model::marked_in_order(marks);
    model::count_bounds(marks);
    assert(r.seats.len() == listed.len());
    assert(forall|k: int| 0 <= k < listed.len() ==> (#[trigger] r.seats[k]).seat == listed[k]);
    if t.seats[i].status != PlayerStatus::Out {
        assert(marks[i]);
        let k = listed.index_of(i);
        assert(listed[k] == i);
        assert(r.seats[k].seat == i);
    }
}

} // verus!
