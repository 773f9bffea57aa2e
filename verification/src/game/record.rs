//! What a hand leaves on record: its result and its events.

use vstd::prelude::*;

use crate::cards::{deck, Card, HandEvaluator};
use crate::game::action::Action;
use crate::game::hand;
use crate::game::hand::{Node, Setup};
use crate::game::laws;
use crate::game::model;
use crate::game::model::{Event, Table};
use crate::game::rules::BettingRules;

verus! {

/// The result of a hand lists exactly the seats that brought chips, in ascending order,
/// and the board is empty or has three to five cards.
pub proof fn results_list_who_brought_chips<E: HandEvaluator>(
    s: Setup,
    e: E,
    answers: Seq<Action>,
)
    requires
        laws::finished(s, e, answers),
        laws::funded_somewhere(s),
    ensures
        ({
            let node = hand::played(s, e, answers).node;
            let result = hand::outcome(s.hand_id, node.table, node.phase->deltas);
            let listed = model::marked(hand::funded(s.stacks));
            &&& result.hand_id == s.hand_id
            &&& result.board.len() == 0 || 3 <= result.board.len() <= 5
            &&& result.seats.len() == listed.len()
            &&& forall|k: int|
                0 <= k < listed.len() ==> (#[trigger] result.seats[k]).seat == listed[k]
                    && result.seats[k].chip_delta >= -s.stacks[listed[k]]
        }),
{
    laws::hand_in_order(s, e, answers);
    let node = hand::played(s, e, answers).node;
    let t = node.table;
    let result = hand::outcome(s.hand_id, t, node.phase->deltas);
    let listed = model::marked(hand::funded(s.stacks));
    assert(hand::took_part_marks(t.seats) =~= hand::funded(s.stacks));
    model::count_bounds(hand::funded(s.stacks));
    assert forall|k: int| 0 <= k < listed.len() implies (#[trigger] result.seats[k]).seat
        == listed[k] && result.seats[k].chip_delta >= -s.stacks[listed[k]] by {
        laws::losses_are_covered(s, e, answers, k);
    }
}

/// Neither the start nor the end of a hand.
pub open spec fn in_between(event: Event) -> bool {
    !(event is HandStarted) && !(event is HandEnded)
}

/// No event among `events` is the start or the end of a hand.
pub open spec fn all_in_between(events: Seq<Event>) -> bool {
    forall|i: int| 0 <= i < events.len() ==> in_between(#[trigger] events[i])
}

proof fn antes_in_between(t: Table, ante: int, n: int)
    ensures
        all_in_between(hand::with_antes(t, ante, n).1),
    decreases n,
{
    if n > 0 {
        antes_in_between(t, ante, n - 1);
    }
}

proof fn holes_in_between(t: Table, order: Seq<Card>, dealt: int, n: int)
    ensures
        all_in_between(hand::with_holes(t, order, dealt, n).2),
    decreases n,
{
    if n > 0 {
        holes_in_between(t, order, dealt, n - 1);
    }
}

proof fn streets_in_between<E: HandEvaluator>(
    rules: BettingRules,
    e: E,
    t: Table,
    order: Seq<Card>,
    dealt: int,
)
    ensures
        all_in_between(hand::streets(rules, e, t, order, dealt).events),
    decreases hand::streets_left(t.street),
{
    if let Some((street, n)) = hand::next_street(t.street) {
        let t1 = hand::street_dealt(rules, t, order, dealt, street, n);
        streets_in_between(rules, e, hand::collected(t1), order, dealt + n);
    }
}

proof fn steps_in_between<E: HandEvaluator>(rules: BettingRules, e: E, node: Node, raw: Action)
    ensures
        all_in_between(hand::stepped(rules, e, node, raw).events),
{
    let m = hand::acted(node, raw);
    assert(all_in_between(hand::acted_events(node, raw)));
    streets_in_between(
        rules,
        e,
        Table { action_on: None, ..hand::collected(m.table) },
        m.order,
        m.dealt,
    );
    assert(all_in_between(hand::advanced(rules, e, m).events));
}

/// A hand's events begin with its start, which names hand, dealer and seed; up to its
/// end there is no other start, and no end.
pub proof fn hands_start_once<E: HandEvaluator>(s: Setup, e: E, answers: Seq<Action>)
    ensures
        ({
            let events = hand::played(s, e, answers).events;
            &&& events.len() >= 1
            &&& events[0] == (Event::HandStarted {
                hand_id: s.hand_id,
                dealer: s.dealer,
                deck_seed: s.deck_seed,
            })
            &&& all_in_between(events.skip(1))
        }),
    decreases answers.len(),
{
    let events = hand::played(s, e, answers).events;
    if answers.len() == 0 {
        antes_in_between(hand::fresh_table(s), s.rules.ante as int, s.stacks.len() as int);
        let before = if s.rules.ante > 0 {
            hand::with_antes(hand::fresh_table(s), s.rules.ante as int, s.stacks.len() as int)
        } else {
            (hand::fresh_table(s), Seq::empty())
        };
        let blinds = hand::with_blinds(before.0, s.rules);
        holes_in_between(blinds.0, deck::shuffled(s.deck_seed), 0, s.stacks.len() as int);
        assert(all_in_between(before.1));
        assert(all_in_between(blinds.1));
        let dealt = hand::dealt_in(s).2;
        assert(all_in_between(dealt));
        assert(events.skip(1) =~= dealt);
    } else {
        let before = hand::played(s, e, answers.drop_last());
        hands_start_once(s, e, answers.drop_last());
        steps_in_between(s.rules, e, before.node, answers.last());
        let step = hand::stepped(s.rules, e, before.node, answers.last()).events;
        assert(events.skip(1) =~= before.events.skip(1) + step);
    }
}

} // verus!
