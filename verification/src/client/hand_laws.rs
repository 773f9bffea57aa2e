//! What the client shows of a hand in flight: exactly what it was told since the hand's
//! start.

use vstd::prelude::*;

use super::machine;
use super::machine::CoreSight;
use super::view::{HandSight, Phase};
use crate::cards::Card;
use crate::game::action::Action;
use crate::game::model::Event;
use crate::game::state::Street;
use crate::net::protocol::{ServerMessage, TableId};

verus! {

/// What `msg` tells of the game at `table`.
pub open spec fn news(msg: ServerMessage, table: TableId) -> Option<Event> {
    match msg {
        ServerMessage::TableEvent { table_id, event } if table_id == table => Some(event@),
        _ => None,
    }
}

/// `msg` leaves us at the table and in the hand: it neither seats nor unseats us, nor is
/// it the start or the end of a hand there, nor a replay.
pub open spec fn in_flight(msg: ServerMessage, table: TableId) -> bool {
    match msg {
        ServerMessage::Welcome { .. } => false,
        ServerMessage::Rejected { .. } => false,
        ServerMessage::Goodbye { .. } => false,
        ServerMessage::JoinedTable { .. } => false,
        ServerMessage::LeftTable { .. } => false,
        ServerMessage::ReplayEvents { .. } => false,
        _ => match news(msg, table) {
            Some(Event::HandStarted { .. }) => false,
            Some(Event::HandEnded { .. }) => false,
            _ => true,
        },
    }
}

/// The messages are those of one hand at `table`: its start, and then nothing that ends it.
pub open spec fn one_hand(msgs: Seq<ServerMessage>, table: TableId, n: int) -> bool {
    &&& 1 <= n <= msgs.len()
    &&& news(msgs[0], table) matches Some(Event::HandStarted { .. })
    &&& forall|k: int| 1 <= k < n ==> in_flight(#[trigger] msgs[k], table)
}

/// The numbers of the board cards that `msg` brings.
pub open spec fn cards_told(msg: ServerMessage, table: TableId) -> Seq<u8> {
    match news(msg, table) {
        Some(Event::BoardDealt { cards, .. }) => cards.map_values(|c: Card| c.id() as u8),
        _ => Seq::empty(),
    }
}

/// The numbers of all board cards that the first `n` messages bring, in order.
pub open spec fn all_cards_told(msgs: Seq<ServerMessage>, table: TableId, n: int) -> Seq<u8> {
    Seq::new(n as nat, |k: int| cards_told(msgs[k], table)).flatten()
}

/// `msg` tells of something that `p` is about.
pub open spec fn about(msg: ServerMessage, table: TableId, p: spec_fn(Event) -> bool) -> bool {
    news(msg, table) matches Some(event) && p(event)
}

/// Message `k` is the last of the first `n` that is about `p`.
pub open spec fn last_about(
    msgs: Seq<ServerMessage>,
    table: TableId,
    n: int,
    p: spec_fn(Event) -> bool,
    k: int,
) -> bool {
    &&& 0 <= k < n
    &&& about(msgs[k], table, p)
    &&& forall|j: int| k < j < n ==> !about(#[trigger] msgs[j], table, p)
}

/// None of the first `n` messages is about `p`.
pub open spec fn never_about(
    msgs: Seq<ServerMessage>,
    table: TableId,
    n: int,
    p: spec_fn(Event) -> bool,
) -> bool {
    forall|j: int| 0 <= j < n ==> !about(#[trigger] msgs[j], table, p)
}

pub open spec fn is_board() -> spec_fn(Event) -> bool {
    |e: Event| e is BoardDealt
}

pub open spec fn is_action() -> spec_fn(Event) -> bool {
    |e: Event| e is ActionTaken
}

pub open spec fn is_hole(seat: int) -> spec_fn(Event) -> bool {
    |e: Event| e matches Event::HoleCardsDealt { seat: s, .. } && s == seat
}

pub open spec fn is_fold(seat: usize) -> spec_fn(Event) -> bool {
    |e: Event|
        e matches Event::ActionTaken { seat: s, action, .. } && s as usize == seat && action
            == Action::Fold
}

pub open spec fn is_all_in(seat: usize) -> spec_fn(Event) -> bool {
    |e: Event| e matches Event::PlayerAllIn { seat: s, .. } && s as usize == seat
}

/// The hand that is shown after the first `n` messages.
pub open spec fn shown(c: CoreSight, msgs: Seq<ServerMessage>, n: int) -> Option<HandSight> {
    machine::after_messages(c, msgs, n).0.view.current_hand
}

/// The last message comes on top of the others.
proof fn one_more_message(c: CoreSight, msgs: Seq<ServerMessage>, n: int)
    requires
        1 <= n <= msgs.len(),
    ensures
        machine::after_messages(c, msgs, n).0 == machine::after_message(
            machine::after_messages(c, msgs, n - 1).0,
            msgs[n - 1],
        ).0,
        machine::after_messages(c, msgs, 0).0 == c,
{
}

/// We stay at the table, and the hand is the one that started.
pub proof fn hands_stay_in_flight(c: CoreSight, table: TableId, msgs: Seq<ServerMessage>, n: int)
    requires
        machine::seated_at(c, table),
        one_hand(msgs, table, n),
    ensures
        machine::after_messages(c, msgs, n).0.view.phase == c.view.phase,
        shown(c, msgs, n) is Some,
        (shown(c, msgs, n)->0).hand_id == (news(msgs[0], table)->0)->HandStarted_hand_id,
        (shown(c, msgs, n)->0).dealer == (news(msgs[0], table)->0)->dealer,
    decreases n,
{
    one_more_message(c, msgs, n);
    if n > 1 {
        hands_stay_in_flight(c, table, msgs, n - 1);
        assert(in_flight(msgs[n - 1], table));
    } else {
    }
}

/// The board that is shown is the concatenation, in order, of the cards of all deals since
/// the start of the hand.
pub proof fn boards_add_up(c: CoreSight, table: TableId, msgs: Seq<ServerMessage>, n: int)
    requires
        machine::seated_at(c, table),
        one_hand(msgs, table, n),
    ensures
        shown(c, msgs, n) is Some,
        (shown(c, msgs, n)->0).board == all_cards_told(msgs, table, n),
    decreases n,
{
    hands_stay_in_flight(c, table, msgs, n);
    let lists = Seq::new(n as nat, |k: int| cards_told(msgs[k], table));
    let before = Seq::new((n - 1) as nat, |k: int| cards_told(msgs[k], table));
    assert(lists =~= before.push(cards_told(msgs[n - 1], table)));
    lists.lemma_flatten_and_flatten_alt_are_equivalent();
    before.lemma_flatten_and_flatten_alt_are_equivalent();
    assert(lists.drop_last() =~= before);
    assert(lists.flatten_alt() == before.flatten_alt() + cards_told(msgs[n - 1], table));
    one_more_message(c, msgs, n);
    if n > 1 {
        hands_stay_in_flight(c, table, msgs, n - 1);
        boards_add_up(c, table, msgs, n - 1);
        assert(in_flight(msgs[n - 1], table));
        let h = shown(c, msgs, n - 1)->0;
        if let Some(Event::BoardDealt { cards, .. }) = news(msgs[n - 1], table) {
            assert(machine::card_numbers(cards) =~= cards.map_values(|c: Card| c.id() as u8));
            assert((shown(c, msgs, n)->0).board =~= h.board + cards_told(msgs[n - 1], table));
        } else {
            assert(h.board + Seq::<u8>::empty() =~= h.board);
        }
    } else {
        assert(before.len() == 0);
        assert((shown(c, msgs, n)->0).board =~= all_cards_told(msgs, table, n));
    }
}

/// The street is that of the last deal, and preflop before the first; the pot is what the
/// last action told, and nothing before the first; the hole cards are those dealt to us.
pub proof fn latest_news_are_shown(
    c: CoreSight,
    table: TableId,
    msgs: Seq<ServerMessage>,
    n: int,
    k: int,
)
    requires
        machine::seated_at(c, table),
        one_hand(msgs, table, n),
    ensures
        shown(c, msgs, n) is Some,
        ({
            let h = shown(c, msgs, n)->0;
            let seat = c.view.phase->seat as int;
            &&& never_about(msgs, table, n, is_board()) ==> h.street == Street::Preflop
            &&& last_about(msgs, table, n, is_board(), k) ==> h.street == (news(
                msgs[k],
                table,
            )->0)->street
            &&& never_about(msgs, table, n, is_action()) ==> h.pot_total == 0
            &&& last_about(msgs, table, n, is_action(), k) ==> h.pot_total == (news(
                msgs[k],
                table,
            )->0)->pot_total as u32
            &&& never_about(msgs, table, n, is_hole(seat)) ==> h.hole_cards is None
            &&& last_about(msgs, table, n, is_hole(seat), k) ==> {
                let hole = (news(msgs[k], table)->0)->hole;
                h.hole_cards == Some((hole.0.id() as u8, hole.1.id() as u8))
            }
        }),
    decreases n,
{
    hands_stay_in_flight(c, table, msgs, n);
    let seat = c.view.phase->seat as int;
    one_more_message(c, msgs, n);
    if n > 1 {
        hands_stay_in_flight(c, table, msgs, n - 1);
        latest_news_are_shown(c, table, msgs, n - 1, k);
        assert(in_flight(msgs[n - 1], table));
        news_go_on(msgs, table, n, is_board(), k);
        news_go_on(msgs, table, n, is_action(), k);
        news_go_on(msgs, table, n, is_hole(seat), k);
    } else {
        assert(!about(msgs[0], table, is_board()));
        assert(!about(msgs[0], table, is_action()));
        assert(!about(msgs[0], table, is_hole(seat)));
    }
}

proof fn news_go_on(
    msgs: Seq<ServerMessage>,
    table: TableId,
    n: int,
    p: spec_fn(Event) -> bool,
    k: int,
)
    requires
        1 < n <= msgs.len(),
    ensures
        last_about(msgs, table, n, p, k) ==> if k == n - 1 {
            about(msgs[n - 1], table, p)
        } else {
            &&& last_about(msgs, table, n - 1, p, k)
            &&& !about(msgs[n - 1], table, p)
        },
        never_about(msgs, table, n, p) ==> never_about(msgs, table, n - 1, p) && !about(
            msgs[n - 1],
            table,
            p,
        ),
{
}

/// A seat is shown as folded exactly if a fold of it was told, as all-in exactly if that
/// was told; each at most once.
pub proof fn seats_are_listed(
    c: CoreSight,
    table: TableId,
    msgs: Seq<ServerMessage>,
    n: int,
    seat: usize,
)
    requires
        machine::seated_at(c, table),
        one_hand(msgs, table, n),
    ensures
        shown(c, msgs, n) is Some,
        ({
            let h = shown(c, msgs, n)->0;
            &&& h.folded_seats.contains(seat) <==> !never_about(msgs, table, n, is_fold(seat))
            &&& h.all_in_seats.contains(seat) <==> !never_about(msgs, table, n, is_all_in(seat))
            &&& h.folded_seats.no_duplicates()
            &&& h.all_in_seats.no_duplicates()
        }),
    decreases n,
{
    hands_stay_in_flight(c, table, msgs, n);
    one_more_message(c, msgs, n);
    if n > 1 {
        hands_stay_in_flight(c, table, msgs, n - 1);
        seats_are_listed(c, table, msgs, n - 1, seat);
        assert(in_flight(msgs[n - 1], table));
        let g = shown(c, msgs, n - 1)->0;
        let h = shown(c, msgs, n)->0;
        told_so_far(msgs, table, n, is_fold(seat));
        told_so_far(msgs, table, n, is_all_in(seat));
        match news(msgs[n - 1], table) {
            Some(Event::ActionTaken { seat: s, action, .. }) => {
                if action == Action::Fold {
                    member_joins(g.folded_seats, s as usize, seat);
                }
            },
            Some(Event::PlayerAllIn { seat: s, .. }) => {
                member_joins(g.all_in_seats, s as usize, seat);
            },
            _ => {},
        }
    } else {
        assert(!about(msgs[0], table, is_fold(seat)));
        assert(!about(msgs[0], table, is_all_in(seat)));
    }
}

proof fn told_so_far(msgs: Seq<ServerMessage>, table: TableId, n: int, p: spec_fn(Event) -> bool)
    requires
        1 < n <= msgs.len(),
    ensures
        never_about(msgs, table, n, p) <==> never_about(msgs, table, n - 1, p) && !about(
            msgs[n - 1],
            table,
            p,
        ),
{
    if never_about(msgs, table, n - 1, p) && !about(msgs[n - 1], table, p) {
        assert forall|j: int| 0 <= j < n implies !about(#[trigger] msgs[j], table, p) by {}
    }
}

proof fn member_joins(seats: Seq<usize>, new: usize, seat: usize)
    requires
        seats.no_duplicates(),
    ensures
        machine::with_member(seats, new).contains(seat) <==> seats.contains(seat) || seat == new,
        machine::with_member(seats, new).no_duplicates(),
{
    let after = machine::with_member(seats, new);
    if !seats.contains(new) {
        assert(after[seats.len() as int] == new);
        assert forall|i: int| 0 <= i < seats.len() implies after[i] == seats[i] by {}
        if seats.contains(seat) {
            let i = choose|i: int| 0 <= i < seats.len() && seats[i] == seat;
            assert(after[i] == seat);
        }
        if after.contains(seat) {
            let i = choose|i: int| 0 <= i < after.len() && after[i] == seat;
            if i < seats.len() {
                assert(seats[i] == seat);
            }
        }
        assert forall|i: int, j: int|
            0 <= i < after.len() && 0 <= j < after.len() && i != j implies after[i] != after[j] by {
            if i == seats.len() {
                assert(seats.contains(seats[j]));
            }
            if j == seats.len() {
                assert(seats.contains(seats[i]));
            }
        }
    }
}

// ---------------------------------------------------------------------------
// Bets
// ---------------------------------------------------------------------------

/// Each seat has at most one bet on the list.
pub open spec fn one_bet_each(bets: Seq<(usize, u32)>) -> bool {
    forall|i: int, j: int|
        0 <= i < j < bets.len() ==> (#[trigger] bets[i]).0 != (#[trigger] bets[j]).0
}

/// `top` is the highest bet on the list, or nothing where the list is empty.
pub open spec fn is_top(bets: Seq<(usize, u32)>, top: u32) -> bool {
    &&& forall|i: int| 0 <= i < bets.len() ==> (#[trigger] bets[i]).1 <= top
    &&& top == 0 || exists|i: int| 0 <= i < bets.len() && (#[trigger] bets[i]).1 == top
}

proof fn bet_is_found(bets: Seq<(usize, u32)>, seat: usize, i: int)
    requires
        0 <= i <= bets.len(),
    ensures
        match machine::bet_index(bets, seat, i) {
            Some(k) => i <= k < bets.len() && bets[k].0 == seat,
            None => forall|j: int| i <= j < bets.len() ==> (#[trigger] bets[j]).0 != seat,
        },
    decreases bets.len() - i,
{
    if i < bets.len() && bets[i].0 != seat {
        bet_is_found(bets, seat, i + 1);
    }
}

/// Setting a seat's bet puts it on the list, or replaces the one that is there, and leaves
/// all others.
proof fn bet_is_set(bets: Seq<(usize, u32)>, seat: usize, amount: u32)
    requires
        one_bet_each(bets),
    ensures
        ({
            let after = machine::with_bet(bets, seat, amount);
            &&& one_bet_each(after)
            &&& after.contains((seat, amount))
            &&& forall|s: usize, a: u32|
                s != seat ==> (#[trigger] after.contains((s, a)) <==> bets.contains((s, a)))
        }),
{
    let after = machine::with_bet(bets, seat, amount);
    bet_is_found(bets, seat, 0);
    match machine::bet_index(bets, seat, 0) {
        Some(k) => {
            assert(after[k] == (seat, amount));
            assert forall|s: usize, a: u32| s != seat implies (#[trigger] after.contains((s, a))
                <==> bets.contains((s, a))) by {
                if after.contains((s, a)) {
                    let i = choose|i: int| 0 <= i < after.len() && after[i] == (s, a);
                    assert(bets[i] == (s, a));
                }
                if bets.contains((s, a)) {
                    let i = choose|i: int| 0 <= i < bets.len() && bets[i] == (s, a);
                    assert(after[i] == (s, a));
                }
            }
        },
        None => {
            assert(after[bets.len() as int] == (seat, amount));
            assert forall|s: usize, a: u32| s != seat implies (#[trigger] after.contains((s, a))
                <==> bets.contains((s, a))) by {
                if after.contains((s, a)) {
                    let i = choose|i: int| 0 <= i < after.len() && after[i] == (s, a);
                    assert(bets[i] == (s, a));
                }
                if bets.contains((s, a)) {
                    let i = choose|i: int| 0 <= i < bets.len() && bets[i] == (s, a);
                    assert(after[i] == (s, a));
                }
            }
        },
    }
}

proof fn top_is_highest(bets: Seq<(usize, u32)>)
    ensures
        is_top(bets, machine::highest_bet(bets)),
    decreases bets.len(),
{
    if bets.len() > 0 {
        let head = bets.drop_last();
        top_is_highest(head);
        let h = machine::highest_bet(head);
        assert forall|i: int| 0 <= i < bets.len() implies (#[trigger] bets[i]).1
            <= machine::highest_bet(bets) by {
            if i < bets.len() - 1 {
                assert(head[i] == bets[i]);
            }
        }
        if bets.last().1 > h {
            assert(bets[bets.len() - 1].1 == machine::highest_bet(bets));
        } else if h != 0 {
            let i = choose|i: int| 0 <= i < head.len() && (#[trigger] head[i]).1 == h;
            assert(bets[i].1 == h);
        }
    }
}

/// What an action does to the bets that are shown: a raise sets the seat's bet, a check or
/// a call brings it to the highest one, a fold and an all-in leave it. Nobody else's bet
/// changes.
pub proof fn actions_move_bets(
    c: CoreSight,
    table: TableId,
    seat: usize,
    action: Action,
    pot_total: int,
    top: u32,
)
    requires
        machine::seated_at(c, table),
        c.view.current_hand is Some,
        one_bet_each((c.view.current_hand->0).bets),
        is_top((c.view.current_hand->0).bets, top),
    ensures
        ({
            let event = Event::ActionTaken { seat: seat as int, action, pot_total };
            let after = machine::after_table_event(c, table, event).0.view.current_hand;
            let before = (c.view.current_hand->0).bets;
            &&& after is Some
            &&& one_bet_each((after->0).bets)
            &&& forall|s: usize, a: u32|
                s != seat ==> (#[trigger] (after->0).bets.contains((s, a)) <==> before.contains(
                    (s, a),
                ))
            &&& action matches Action::Raise(to) ==> (after->0).bets.contains((seat, to))
            &&& action == Action::Check || action == Action::Call ==> (after->0).bets.contains(
                (seat, top),
            )
            &&& action == Action::Fold || action == Action::AllIn ==> (after->0).bets == before
            &&& (after->0).board == (c.view.current_hand->0).board
            &&& (after->0).street == (c.view.current_hand->0).street
        }),
{
    let bets = (c.view.current_hand->0).bets;
    top_is_highest(bets);
    let h = machine::highest_bet(bets);
    assert(h == top) by {
        if h != 0 {
            let i = choose|i: int| 0 <= i < bets.len() && (#[trigger] bets[i]).1 == h;
            assert(bets[i].1 <= top);
        }
        if top != 0 {
            let i = choose|i: int| 0 <= i < bets.len() && (#[trigger] bets[i]).1 == top;
            assert(bets[i].1 <= h);
        }
    }
    bet_is_set(bets, seat, h);
    if let Action::Raise(to) = action {
        bet_is_set(bets, seat, to);
    }
}

/// An all-in brings the seat's bet to what was told, and leaves the others. A new street
/// clears all bets.
pub proof fn all_ins_and_streets_move_bets(
    c: CoreSight,
    table: TableId,
    seat: usize,
    total: u32,
    street: Street,
    cards: Seq<Card>,
)
    requires
        machine::seated_at(c, table),
        c.view.current_hand is Some,
        one_bet_each((c.view.current_hand->0).bets),
    ensures
        ({
            let before = (c.view.current_hand->0).bets;
            let shoved = machine::after_table_event(
                c,
                table,
                Event::PlayerAllIn { seat: seat as int, total_committed: total as int },
            ).0.view.current_hand;
            let dealt = machine::after_table_event(
                c,
                table,
                Event::BoardDealt { street, cards },
            ).0.view.current_hand;
            &&& shoved is Some && dealt is Some
            &&& one_bet_each((shoved->0).bets)
            &&& (shoved->0).bets.contains((seat, total))
            &&& forall|s: usize, a: u32|
                s != seat ==> (#[trigger] (shoved->0).bets.contains((s, a)) <==> before.contains(
                    (s, a),
                ))
            &&& (dealt->0).bets.len() == 0
        }),
{
    bet_is_set((c.view.current_hand->0).bets, seat, total);
}

/// The end of a hand takes it off the table, and the prompt with it; the seats stay.
pub proof fn ends_clear_the_hand(
    c: CoreSight,
    table: TableId,
    hand_id: u64,
    result: crate::game::model::Outcome,
)
    requires
        machine::seated_at(c, table),
    ensures
        ({
            let c1 = machine::after_table_event(c, table, Event::HandEnded { hand_id, result }).0;
            &&& c1.view.current_hand is None
            &&& c1.prompt is None
            &&& c1.view.phase == c.view.phase
            &&& c1.view.seats == c.view.seats
            &&& c1.view.button == c.view.button
        }),
{
}

} // verus!
