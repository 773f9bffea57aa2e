//! What is known of a hand, gathered from a stream of events.
//!
//! Both the replay viewer and the live client feed events through the same
//! accumulator; the resulting [`Snapshot`] is what the table is drawn from.

use vstd::prelude::*;

use crate::cards::Card;
use crate::game::action::Action;
use crate::game::event::{EngineEvent, HandResult};
use crate::game::model;
use crate::game::state;
use crate::game::state::{HandId, SeatIndex, Street};
use crate::text;

verus! {

#[derive(Debug)]
pub struct Snapshot {
    pub hand_id: Option<HandId>,
    pub dealer: Option<SeatIndex>,
    pub street: Option<Street>,
    pub board: Vec<Card>,
    pub pot_total: u32,
    pub players: Vec<PlayerView>,
    pub action_log: Vec<String>,
    pub terminal: Option<HandResult>,
}

#[derive(Debug, Clone, Copy)]
pub struct PlayerView {
    pub hole_cards: Option<[Card; 2]>,
    pub all_in: bool,
    pub folded: bool,
    pub total_committed: u32,
}

/// What is known of one player.
#[verifier::ext_equal]
pub struct PlayerSight {
    pub hole: Option<(Card, Card)>,
    pub all_in: bool,
    pub folded: bool,
    pub committed: u32,
}

impl PlayerSight {
    /// Nothing is known.
    pub open spec fn blank() -> PlayerSight {
        PlayerSight { hole: None, all_in: false, folded: false, committed: 0 }
    }
}

/// What is known of a hand.
#[verifier::ext_equal]
pub struct SnapSight {
    pub hand_id: Option<u64>,
    pub dealer: Option<usize>,
    pub street: Option<Street>,
    pub board: Seq<Card>,
    pub pot_total: u32,
    pub players: Seq<PlayerSight>,
    pub log: Seq<Seq<char>>,
    pub terminal: Option<model::Outcome>,
}

impl SnapSight {
    /// Nothing is known.
    pub open spec fn blank() -> SnapSight {
        SnapSight {
            hand_id: None,
            dealer: None,
            street: None,
            board: Seq::empty(),
            pot_total: 0,
            players: Seq::empty(),
            log: Seq::empty(),
            terminal: None,
        }
    }
}

impl View for PlayerView {
    type V = PlayerSight;

    open spec fn view(&self) -> PlayerSight {
        PlayerSight {
            hole: state::hole_pair(self.hole_cards),
            all_in: self.all_in,
            folded: self.folded,
            committed: self.total_committed,
        }
    }
}

/// The players one by one.
pub open spec fn players_seen(players: Seq<PlayerView>) -> Seq<PlayerSight> {
    Seq::new(players.len(), |i: int| players[i]@)
}

/// The outcome, if there is one.
pub open spec fn outcome_of(terminal: Option<HandResult>) -> Option<model::Outcome> {
    match terminal {
        Some(r) => Some(r@),
        None => None,
    }
}

impl View for Snapshot {
    type V = SnapSight;

    open spec fn view(&self) -> SnapSight {
        SnapSight {
            hand_id: self.hand_id,
            dealer: self.dealer,
            street: self.street,
            board: self.board@,
            pot_total: self.pot_total,
            players: players_seen(self.players@),
            log: text::lines(self.action_log@),
            terminal: outcome_of(self.terminal),
        }
    }
}

/// The players, with blank ones added up to `seat`.
pub open spec fn with_room(players: Seq<PlayerSight>, seat: int) -> Seq<PlayerSight> {
    if players.len() <= seat {
        players + Seq::new((seat + 1 - players.len()) as nat, |i: int| PlayerSight::blank())
    } else {
        players
    }
}

/// The line that records an action.
pub open spec fn action_line(seat: int, action: Action, pot_total: int) -> Seq<char> {
    "seat "@ + text::decimal(seat as nat) + " "@ + action.name() + " (pot "@ + text::decimal(
        pot_total as nat,
    ) + ")"@
}

/// What is known after `event`. A new hand starts over but keeps the seats.
pub open spec fn after_event(s: SnapSight, event: model::Event) -> SnapSight {
    match event {
        model::Event::HandStarted { hand_id, dealer, .. } => SnapSight {
            hand_id: Some(hand_id),
            dealer: Some(dealer),
            street: Some(Street::Preflop),
            board: Seq::empty(),
            pot_total: 0,
            players: Seq::new(s.players.len(), |i: int| PlayerSight::blank()),
            log: Seq::empty(),
            terminal: None,
        },
        model::Event::HoleCardsDealt { seat, hole } => {
            let players = with_room(s.players, seat);
            SnapSight {
                players: players.update(seat, PlayerSight { hole: Some(hole), ..players[seat] }),
                ..s
            }
        },
        model::Event::BoardDealt { street, cards } => SnapSight {
            street: Some(street),
            board: s.board + cards,
            ..s
        },
        model::Event::ActionTaken { seat, action, pot_total } => {
            let players = with_room(s.players, seat);
            SnapSight {
                pot_total: pot_total as u32,
                players: players.update(
                    seat,
                    PlayerSight {
                        folded: players[seat].folded || action == Action::Fold,
                        all_in: players[seat].all_in || action == Action::AllIn,
                        ..players[seat]
                    },
                ),
                log: s.log.push(action_line(seat, action, pot_total)),
                ..s
            }
        },
        model::Event::PlayerAllIn { seat, total_committed } => {
            let players = with_room(s.players, seat);
            SnapSight {
                players: players.update(
                    seat,
                    PlayerSight {
                        all_in: true,
                        committed: total_committed as u32,
                        ..players[seat]
                    },
                ),
                ..s
            }
        },
        model::Event::HandEnded { result, .. } => SnapSight { terminal: Some(result), ..s },
    }
}

/// What is known after `events`, one after the other.
pub open spec fn after_events(s: SnapSight, events: Seq<model::Event>) -> SnapSight
    decreases events.len(),
{
    if events.len() == 0 {
        s
    } else {
        after_event(after_events(s, events.drop_last()), events.last())
    }
}

/// The events one by one.
pub open spec fn told(events: Seq<EngineEvent>) -> Seq<model::Event> {
    Seq::new(events.len(), |i: int| events[i]@)
}

/// The event names a seat that a list can have room for.
pub open spec fn seat_fits(event: model::Event) -> bool {
    match event {
        model::Event::HoleCardsDealt { seat, .. } => seat < usize::MAX,
        model::Event::ActionTaken { seat, .. } => seat < usize::MAX,
        model::Event::PlayerAllIn { seat, .. } => seat < usize::MAX,
        _ => true,
    }
}

impl Default for PlayerView {
    fn default() -> (p: PlayerView)
        ensures
            p@ == PlayerSight::blank(),
    {
        PlayerView { hole_cards: None, all_in: false, folded: false, total_committed: 0 }
    }
}

fn ensure_seat(players: &mut Vec<PlayerView>, seat: SeatIndex)
    requires
        seat < usize::MAX,
    ensures
        players_seen(final(players)@) == with_room(players_seen(old(players)@), seat as int),
        seat < final(players)@.len(),
{
    let ghost before = players_seen(players@);
    while players.len() <= seat
        invariant
            seat < usize::MAX,
            before.len() <= players@.len(),
            players@.len() == before.len() || players@.len() <= seat + 1,
            players_seen(players@) == before + Seq::new(
                (players@.len() - before.len()) as nat,
                |i: int| PlayerSight::blank(),
            ),
        decreases seat + 1 - players@.len(),
    {
        let ghost seen = players_seen(players@);
        players.push(PlayerView::default());
        assert(players_seen(players@) =~= seen.push(PlayerSight::blank()));
        assert(players_seen(players@) =~= before + Seq::new(
            (players@.len() - before.len()) as nat,
            |i: int| PlayerSight::blank(),
        ));
    }
    assert(players_seen(players@) =~= with_room(before, seat as int));
}

impl Snapshot {
    pub fn new() -> (s: Snapshot)
        ensures
            s@ == SnapSight::blank(),
    {
        let s = Snapshot {
            hand_id: None,
            dealer: None,
            street: None,
            board: Vec::new(),
            pot_total: 0,
            players: Vec::new(),
            action_log: Vec::new(),
            terminal: None,
        };
        assert(s@ =~= SnapSight::blank());
        s
    }

    /// What `events` tell, one after the other.
    pub fn derive(events: &[EngineEvent]) -> (s: Snapshot)
        requires
            forall|i: int| 0 <= i < events@.len() ==> seat_fits((#[trigger] events@[i])@),
        ensures
            s@ == after_events(SnapSight::blank(), told(events@)),
    {
        let mut snap = Snapshot::new();
        let mut i: usize = 0;
        let ghost all = told(events@);
        assert(all.take(0) =~= Seq::<model::Event>::empty());
        while i < events.len()
            invariant
                i <= events@.len(),
                all == told(events@),
                forall|k: int| 0 <= k < events@.len() ==> seat_fits((#[trigger] events@[k])@),
                snap@ == after_events(SnapSight::blank(), all.take(i as int)),
            decreases events@.len() - i,
        {
            assert(all.take(i + 1).drop_last() =~= all.take(i as int));
            assert(seat_fits(events@[i as int]@));
            snap.apply(&events[i]);
            i = i + 1;
        }
        assert(all.take(i as int) =~= all);
        snap
    }

    /// Fold one event into this snapshot. The start of a hand resets the per-hand
    /// fields so a long-running live client can keep one snapshot across hands.
    pub fn apply(&mut self, e: &EngineEvent)
        requires
            seat_fits(e@),
        ensures
            final(self)@ == after_event(old(self)@, e@),
    {
        match e {
            EngineEvent::HandStarted { hand_id, dealer, .. } => {
                self.hand_id = Some(*hand_id);
                self.dealer = Some(*dealer);
                self.street = Some(Street::Preflop);
                self.board = Vec::new();
                self.pot_total = 0;
                // Keep the seat slots; just clear per-hand fields.
                let n: usize = self.players.len();
                let mut players: Vec<PlayerView> = Vec::new();
                while players.len() < n
                    invariant
                        players@.len() <= n,
                        forall|i: int|
                            0 <= i < players@.len() ==> (#[trigger] players@[i])@
                                == PlayerSight::blank(),
                    decreases n - players@.len(),
                {
                    players.push(PlayerView::default());
                }
                self.players = players;
                self.action_log = Vec::new();
                self.terminal = None;
            },
            EngineEvent::HoleCardsDealt { seat, cards } => {
                ensure_seat(&mut self.players, *seat);
                let mut p = self.players[*seat];
                p.hole_cards = Some(*cards);
                self.players.set(*seat, p);
            },
            EngineEvent::BoardDealt { street, cards } => {
                self.street = Some(*street);
                let mut more = cards.clone();
                self.board.append(&mut more);
            },
            EngineEvent::ActionTaken { seat, action, pot_total } => {
                ensure_seat(&mut self.players, *seat);
                self.pot_total = *pot_total;
                let mut p = self.players[*seat];
                if *action == Action::Fold {
                    p.folded = true;
                }
                if *action == Action::AllIn {
                    p.all_in = true;
                }
                self.players.set(*seat, p);
                let mut line = String::new();
                line.append("seat ");
                text::push_decimal(&mut line, *seat as u64);
                line.append(" ");
                action.push_name(&mut line);
                line.append(" (pot ");
                text::push_decimal(&mut line, *pot_total as u64);
                line.append(")");
                assert(line@ =~= action_line(*seat as int, *action, *pot_total as int));
                self.action_log.push(line);
            },
            EngineEvent::PlayerAllIn { seat, total_committed } => {
                ensure_seat(&mut self.players, *seat);
                let mut p = self.players[*seat];
                p.all_in = true;
                p.total_committed = *total_committed;
                self.players.set(*seat, p);
            },
            EngineEvent::HandEnded { result, .. } => {
                self.terminal = Some(result.clone());
            },
        }
        assert(self@ =~= after_event(old(self)@, e@));
    }
}

/// The names of the cards.
pub open spec fn card_texts(cards: Seq<Card>) -> Seq<Seq<char>> {
    Seq::new(cards.len(), |i: int| cards[i].text())
}

/// A seat and what it won or lost.
pub open spec fn delta_text(o: model::SeatResult) -> Seq<char> {
    text::decimal(o.seat as nat) + ":"@ + text::plus_decimal(o.chip_delta)
}

/// Seats and what they won or lost.
pub open spec fn delta_texts(seats: Seq<model::SeatResult>) -> Seq<Seq<char>> {
    Seq::new(seats.len(), |i: int| delta_text(seats[i]))
}

/// The line that describes `event`.
pub open spec fn description(event: model::Event) -> Seq<char> {
    match event {
        model::Event::HandStarted { hand_id, dealer, deck_seed } => "HandStarted · hand="@
            + text::decimal(hand_id as nat) + " dealer="@ + text::decimal(dealer as nat) + " seed="@
            + text::decimal(deck_seed as nat),
        model::Event::HoleCardsDealt { seat, hole } => "HoleCardsDealt · seat="@ + text::decimal(
            seat as nat,
        ) + " ["@ + hole.0.text() + " "@ + hole.1.text() + "]"@,
        model::Event::BoardDealt { street, cards } => "BoardDealt · "@ + street.name() + " ["@
            + text::joined(card_texts(cards), " "@) + "]"@,
        model::Event::ActionTaken { seat, action, pot_total } => "ActionTaken · seat="@
            + text::decimal(seat as nat) + " "@ + action.name() + " pot="@ + text::decimal(
            pot_total as nat,
        ),
        model::Event::PlayerAllIn { seat, total_committed } => "PlayerAllIn · seat="@
            + text::decimal(seat as nat) + " total="@ + text::decimal(total_committed as nat),
        model::Event::HandEnded { hand_id, result } => "HandEnded · hand="@ + text::decimal(
            hand_id as nat,
        ) + " deltas=["@ + text::joined(delta_texts(result.seats), ", "@) + "]"@,
    }
}

/// One more part at the end of joined texts.
proof fn joined_one_more(parts: Seq<Seq<char>>, n: int, sep: Seq<char>)
    requires
        0 <= n < parts.len(),
    ensures
        text::joined(parts.take(n + 1), sep) == if n == 0 {
            parts[0]
        } else {
            text::joined(parts.take(n), sep) + sep + parts[n]
        },
{
    assert(parts.take(n + 1).drop_last() =~= parts.take(n));
}

/// Appends the names of `cards`, with spaces between them.
pub fn push_cards(s: &mut String, cards: &[Card])
    ensures
        final(s)@ == old(s)@ + text::joined(card_texts(cards@), " "@),
{
    let ghost before = s@;
    let ghost parts = card_texts(cards@);
    let mut i: usize = 0;
    assert(before + text::joined(parts.take(0), " "@) =~= before);
    while i < cards.len()
        invariant
            i <= cards@.len(),
            parts == card_texts(cards@),
            s@ == before + text::joined(parts.take(i as int), " "@),
        decreases cards@.len() - i,
    {
        proof {
            joined_one_more(parts, i as int, " "@);
        }
        if i > 0 {
            s.append(" ");
        }
        s.append(cards[i].to_text().as_str());
        assert(s@ =~= before + text::joined(parts.take(i + 1), " "@));
        i = i + 1;
    }
    assert(parts.take(i as int) =~= parts);
}

/// Appends the result's seats and what they won or lost.
fn push_deltas(s: &mut String, result: &HandResult)
    ensures
        final(s)@ == old(s)@ + text::joined(delta_texts(result@.seats), ", "@),
{
    let ghost before = s@;
    let ghost parts = delta_texts(result@.seats);
    let mut i: usize = 0;
    assert(before + text::joined(parts.take(0), ", "@) =~= before);
    while i < result.seats.len()
        invariant
            i <= result.seats@.len(),
            parts == delta_texts(result@.seats),
            s@ == before + text::joined(parts.take(i as int), ", "@),
        decreases result.seats@.len() - i,
    {
        proof {
            joined_one_more(parts, i as int, ", "@);
        }
        if i > 0 {
            s.append(", ");
        }
        let o = result.seats[i];
        assert(o@ == result@.seats[i as int]);
        text::push_decimal(s, o.seat as u64);
        s.append(":");
        text::push_plus(s, o.chip_delta as i64);
        assert(s@ =~= before + text::joined(parts.take(i + 1), ", "@));
        i = i + 1;
    }
    assert(parts.take(i as int) =~= parts);
}

/// The line that describes an event.
pub fn describe_event(e: &EngineEvent) -> (line: String)
    ensures
        line@ == description(e@),
{
    let mut s = String::new();
    match e {
        EngineEvent::HandStarted { hand_id, dealer, deck_seed } => {
            s.append("HandStarted · hand=");
            text::push_decimal(&mut s, *hand_id);
            s.append(" dealer=");
            text::push_decimal(&mut s, *dealer as u64);
            s.append(" seed=");
            text::push_decimal(&mut s, *deck_seed);
        },
        EngineEvent::HoleCardsDealt { seat, cards } => {
            s.append("HoleCardsDealt · seat=");
            text::push_decimal(&mut s, *seat as u64);
            s.append(" [");
            s.append(cards[0].to_text().as_str());
            s.append(" ");
            s.append(cards[1].to_text().as_str());
            s.append("]");
        },
        EngineEvent::BoardDealt { street, cards } => {
            s.append("BoardDealt · ");
            s.append(street.as_str());
            s.append(" [");
            push_cards(&mut s, cards.as_slice());
            s.append("]");
        },
        EngineEvent::ActionTaken { seat, action, pot_total } => {
            s.append("ActionTaken · seat=");
            text::push_decimal(&mut s, *seat as u64);
            s.append(" ");
            action.push_name(&mut s);
            s.append(" pot=");
            text::push_decimal(&mut s, *pot_total as u64);
        },
        EngineEvent::PlayerAllIn { seat, total_committed } => {
            s.append("PlayerAllIn · seat=");
            text::push_decimal(&mut s, *seat as u64);
            s.append(" total=");
            text::push_decimal(&mut s, *total_committed as u64);
        },
        EngineEvent::HandEnded { hand_id, result } => {
            s.append("HandEnded · hand=");
            text::push_decimal(&mut s, *hand_id);
            s.append(" deltas=[");
            push_deltas(&mut s, result);
            s.append("]");
        },
    }
    assert(s@ =~= description(e@));
    s
}

/// The action's name, with the size in brackets for a raise.
pub fn fmt_action(a: Action) -> (s: String)
    ensures
        s@ == a.name(),
{
    let mut s = String::new();
    a.push_name(&mut s);
    assert(s@ =~= a.name());
    s
}

/// Cutting a stream in two and going on from the first half's picture gives the same
/// picture as the whole stream: a live client and a replay agree.
pub proof fn pictures_compose(s: SnapSight, first: Seq<model::Event>, second: Seq<model::Event>)
    ensures
        after_events(s, first + second) == after_events(after_events(s, first), second),
    decreases second.len(),
{
    if second.len() == 0 {
        assert(first + second =~= first);
    } else {
        pictures_compose(s, first, second.drop_last());
        assert((first + second).drop_last() =~= first + second.drop_last());
        assert((first + second).last() == second.last());
    }
}

/// A new hand clears what the last one left, except the number of seats: what is
/// known then depends on that number and on the event alone.
pub proof fn new_hands_start_over(
    a: SnapSight,
    b: SnapSight,
    hand_id: u64,
    dealer: usize,
    deck_seed: u64,
)
    requires
        a.players.len() == b.players.len(),
    ensures
        after_event(a, model::Event::HandStarted { hand_id, dealer, deck_seed }) == after_event(
            b,
            model::Event::HandStarted { hand_id, dealer, deck_seed },
        ),
{
}

} // verus!
