//! What the table shows: exactly what was told since the hand's start.

use vstd::prelude::*;

use super::snapshot;
use super::snapshot::SnapSight;
use crate::game::action::Action;
use crate::game::model::Event;
use crate::game::state::Street;
use crate::game::telling;

verus! {

/// The events are those of one hand, from its start on.
pub open spec fn one_hand(events: Seq<Event>) -> bool {
    &&& events.len() > 0
    &&& events[0] is HandStarted
    &&& forall|k: int| 1 <= k < events.len() ==> !((#[trigger] events[k]) is HandStarted)
    &&& forall|k: int|
        0 <= k < events.len() ==> match #[trigger] events[k] {
            Event::HoleCardsDealt { seat, .. } => 0 <= seat,
            Event::ActionTaken { seat, .. } => 0 <= seat,
            Event::PlayerAllIn { seat, .. } => 0 <= seat,
            _ => true,
        }
}

/// Event `k` is the last one that `p` is about.
pub open spec fn last_about(events: Seq<Event>, p: spec_fn(Event) -> bool, k: int) -> bool {
    &&& 0 <= k < events.len()
    &&& p(events[k])
    &&& forall|j: int| k < j < events.len() ==> !p(#[trigger] events[j])
}

/// `p` is about none of the events.
pub open spec fn never_about(events: Seq<Event>, p: spec_fn(Event) -> bool) -> bool {
    forall|j: int| 0 <= j < events.len() ==> !p(#[trigger] events[j])
}

pub open spec fn is_board() -> spec_fn(Event) -> bool {
    |e: Event| e is BoardDealt
}

pub open spec fn is_action() -> spec_fn(Event) -> bool {
    |e: Event| e is ActionTaken
}

pub open spec fn is_end() -> spec_fn(Event) -> bool {
    |e: Event| e is HandEnded
}

pub open spec fn is_hole(seat: int) -> spec_fn(Event) -> bool {
    |e: Event| e matches Event::HoleCardsDealt { seat: s, .. } && s == seat
}

pub open spec fn is_fold(seat: int) -> spec_fn(Event) -> bool {
    |e: Event|
        e matches Event::ActionTaken { seat: s, action, .. } && s == seat && action == Action::Fold
}

/// The seat is said to be all-in, by its action or by itself.
pub open spec fn is_all_in(seat: int) -> spec_fn(Event) -> bool {
    |e: Event|
        match e {
            Event::ActionTaken { seat: s, action, .. } => s == seat && action == Action::AllIn,
            Event::PlayerAllIn { seat: s, .. } => s == seat,
            _ => false,
        }
}

proof fn shorter(events: Seq<Event>)
    requires
        one_hand(events),
        events.len() > 1,
    ensures
        one_hand(events.drop_last()),
{
    let head = events.drop_last();
    assert(head[0] == events[0]);
    assert forall|k: int| 1 <= k < head.len() implies !((#[trigger] head[k]) is HandStarted) by {
        assert(!(events[k] is HandStarted));
    }
    assert forall|k: int| 0 <= k < head.len() implies match #[trigger] head[k] {
        Event::HoleCardsDealt { seat, .. } => 0 <= seat,
        Event::ActionTaken { seat, .. } => 0 <= seat,
        Event::PlayerAllIn { seat, .. } => 0 <= seat,
        _ => true,
    } by {
        assert(head[k] == events[k]);
    }
}

proof fn goes_on(events: Seq<Event>, p: spec_fn(Event) -> bool, k: int)
    requires
        events.len() > 1,
    ensures
        last_about(events, p, k) ==> if k == events.len() - 1 {
            p(events.last())
        } else {
            last_about(events.drop_last(), p, k) && !p(events.last())
        },
        never_about(events, p) <==> never_about(events.drop_last(), p) && !p(events.last()),
{
    let head = events.drop_last();
    if last_about(events, p, k) && k < events.len() - 1 {
        assert(!p(events[events.len() - 1]));
        assert forall|j: int| k < j < head.len() implies !p(#[trigger] head[j]) by {
            assert(!p(events[j]));
        }
    }
    if never_about(events, p) {
        assert(!p(events[events.len() - 1]));
        assert forall|j: int| 0 <= j < head.len() implies !p(#[trigger] head[j]) by {
            assert(!p(events[j]));
        }
    }
    if never_about(head, p) && !p(events.last()) {
        assert forall|j: int| 0 <= j < events.len() implies !p(#[trigger] events[j]) by {
            if j < head.len() {
                assert(!p(head[j]));
            }
        }
    }
}

/// What a table shows of a hand, whatever it showed before. The hand and the dealer are
/// those of the start. The board is, in order, all cards that were dealt to it since; the
/// street is that of the last deal, or preflop. The pot is what the last action told, and
/// there is one line for each action. The result is there once the hand has ended.
pub proof fn tables_show_what_was_told(s: SnapSight, events: Seq<Event>, k: int)
    requires
        one_hand(events),
    ensures
        ({
            let a = snapshot::after_events(s, events);
            &&& a.hand_id == Some(events[0]->HandStarted_hand_id)
            &&& a.dealer == Some(events[0]->dealer)
            &&& a.board == telling::board_told(events)
            &&& never_about(events, is_board()) ==> a.street == Some(Street::Preflop)
            &&& last_about(events, is_board(), k) ==> a.street == Some(events[k]->street)
            &&& never_about(events, is_action()) ==> a.pot_total == 0 && a.log.len() == 0
            &&& last_about(events, is_action(), k) ==> a.pot_total == events[k]->pot_total as u32
                && a.log.len() > 0
            &&& a.log.len() == events.filter(is_action()).len()
            &&& never_about(events, is_end()) ==> a.terminal is None
            &&& last_about(events, is_end(), k) ==> a.terminal == Some(events[k]->result)
        }),
    decreases events.len(),
{
    reveal(Seq::filter);
    let head = events.drop_last();
    if events.len() > 1 {
        shorter(events);
        tables_show_what_was_told(s, head, k);
        goes_on(events, is_board(), k);
        goes_on(events, is_action(), k);
        goes_on(events, is_end(), k);
        assert(!(events[events.len() - 1] is HandStarted));
        assert(head[0] == events[0]);
        if 0 <= k < events.len() - 1 {
            assert(head[k] == events[k]);
        }
    } else {
        assert(events.last() == events[0]);
        assert(snapshot::after_events(s, head) == s);
        assert(head =~= Seq::<Event>::empty());
        assert(telling::board_told(head) == Seq::<crate::cards::Card>::empty());
        assert(telling::board_told(events) == telling::board_told(head));
        assert(snapshot::after_events(s, events).board =~= telling::board_told(events));
        assert(!is_board()(events[0]) && !is_action()(events[0]) && !is_end()(events[0]));
        assert(head.filter(is_action()).len() == 0);
        assert(events.filter(is_action()) == head.filter(is_action()));
    }
}

/// What is shown of a seat: its cards as they were dealt, whether it folded, and whether it
/// is all-in; each exactly if it was told since the hand's start.
pub proof fn seats_show_what_was_told(s: SnapSight, events: Seq<Event>, seat: int, k: int)
    requires
        one_hand(events),
        0 <= seat,
    ensures
        ({
            let a = snapshot::after_events(s, events);
            let silent = never_about(events, is_hole(seat)) && never_about(events, is_fold(seat))
                && never_about(events, is_all_in(seat));
            &&& !silent ==> seat < a.players.len()
            &&& s.players.len() <= a.players.len()
            &&& seat < a.players.len() ==> {
                let p = a.players[seat];
                &&& p.folded <==> !never_about(events, is_fold(seat))
                &&& p.all_in <==> !never_about(events, is_all_in(seat))
                &&& never_about(events, is_hole(seat)) ==> p.hole is None
                &&& last_about(events, is_hole(seat), k) ==> p.hole == Some(events[k]->hole)
            }
        }),
    decreases events.len(),
{
    let head = events.drop_last();
    let b = snapshot::after_events(s, head);
    let a = snapshot::after_events(s, events);
    if events.len() > 1 {
        shorter(events);
        seats_show_what_was_told(s, head, seat, k);
        goes_on(events, is_hole(seat), k);
        goes_on(events, is_fold(seat), k);
        goes_on(events, is_all_in(seat), k);
        let e = events[events.len() - 1];
        assert(!(e is HandStarted));
        assert(e == events.last());
        if last_about(events, is_hole(seat), k) && k < events.len() - 1 {
            assert(head[k] == events[k]);
        }
        if !never_about(head, is_hole(seat)) || !never_about(head, is_fold(seat)) || !never_about(
            head,
            is_all_in(seat),
        ) {
            assert(seat < b.players.len());
        }
        // A seat that was not there is blank, and nothing was told of it.
        if seat >= b.players.len() && seat < a.players.len() {
            assert(never_about(head, is_hole(seat)));
        }
    } else {
        assert(events.last() == events[0]);
        assert(b == s);
        assert(!is_hole(seat)(events[0]));
        assert(!is_fold(seat)(events[0]));
        assert(!is_all_in(seat)(events[0]));
    }
}

} // verus!
