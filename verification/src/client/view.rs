//! The read-only projection the host renders. The frontend derives its UI as a pure
//! function of it.

use vstd::prelude::*;

use crate::game::action::LegalActions;
use crate::game::state::Street;
use crate::net::protocol;
use crate::net::protocol::{LifetimeStats, PlayerId, SeatInfo, TableId, TableInfo};

verus! {

/// High-level connection / session phase.
#[derive(Debug, PartialEq, Eq)]
pub enum Phase {
    /// No connection.
    Disconnected,
    /// Transport is opening the socket; the handshake has not been sent.
    Connecting,
    /// Handshake in flight.
    Authenticating,
    /// Authenticated, not at a table.
    Lobby,
    /// At a table.
    Seated { table_id: TableId, seat: usize },
    /// Server said goodbye or refused the handshake, or the connection was lost.
    Ended { reason: String },
}

impl Clone for Phase {
    fn clone(&self) -> (phase: Phase)
        ensures
            phase == *self,
    {
        match self {
            Phase::Disconnected => Phase::Disconnected,
            Phase::Connecting => Phase::Connecting,
            Phase::Authenticating => Phase::Authenticating,
            Phase::Lobby => Phase::Lobby,
            Phase::Seated { table_id, seat } => Phase::Seated { table_id: *table_id, seat: *seat },
            Phase::Ended { reason } => Phase::Ended { reason: reason.clone() },
        }
    }
}

impl Phase {
    /// The phases name the same one, with the same data.
    pub open spec fn same(self, other: Phase) -> bool {
        match (self, other) {
            (Phase::Ended { reason: a }, Phase::Ended { reason: b }) => a@ == b@,
            (Phase::Ended { .. }, _) => false,
            (_, Phase::Ended { .. }) => false,
            _ => self == other,
        }
    }

    /// Whether the phases are the same.
    pub fn is_same(&self, other: &Phase) -> (r: bool)
        ensures
            r == self.same(*other),
    {
        match (self, other) {
            (Phase::Disconnected, Phase::Disconnected) => true,
            (Phase::Connecting, Phase::Connecting) => true,
            (Phase::Authenticating, Phase::Authenticating) => true,
            (Phase::Lobby, Phase::Lobby) => true,
            (
                Phase::Seated { table_id: t, seat: s },
                Phase::Seated { table_id: u, seat: v },
            ) => *t == *u && *s == *v,
            (Phase::Ended { reason: a }, Phase::Ended { reason: b }) => *a == *b,
            _ => false,
        }
    }
}

/// The full read-only client state.
#[derive(Debug)]
pub struct ClientView {
    pub phase: Phase,
    /// Set after a successful `Welcome`.
    pub player_id: Option<PlayerId>,
    /// Username as canonicalised by the server.
    pub username: Option<String>,
    /// Cumulative counters from the `Welcome`.
    pub lifetime_stats: Option<LifetimeStats>,
    /// Most recent lobby snapshot. Empty until a `TableList` arrives.
    pub tables: Vec<TableInfo>,
    /// Seat layout when seated. Empty in any other phase.
    pub seats: Vec<SeatInfo>,
    /// Dealer-button seat index when seated and known.
    pub button: Option<usize>,
    /// In-flight hand state, present in `Seated` between the start and the end of a
    /// hand.
    pub current_hand: Option<CurrentHand>,
    /// Last rejection since the previous successful action. Cleared whenever a fresh
    /// prompt is issued.
    pub last_action_rejection: Option<String>,
}

/// Per-hand state. Reset at every start of a hand.
#[derive(Debug)]
pub struct CurrentHand {
    pub hand_id: u64,
    pub dealer: usize,
    /// Furthest street reached so far.
    pub street: Street,
    /// Our hole cards, as card numbers.
    pub hole_cards: Option<[u8; 2]>,
    /// Board cards in deal order, as card numbers.
    pub board: Vec<u8>,
    /// Pot total as of the most recent action.
    pub pot_total: u32,
    /// Seats whose hands are folded this hand.
    pub folded_seats: Vec<usize>,
    /// Seats that have moved all-in this hand.
    pub all_in_seats: Vec<usize>,
    /// True iff there is currently an open prompt addressed to us.
    pub awaiting_action: bool,
    /// Legal actions for the open prompt. `None` when `awaiting_action` is false.
    pub legal_actions: Option<LegalActions>,
    /// Action deadline in milliseconds, sampled when the prompt was issued. `None`
    /// when not awaiting.
    pub action_deadline_ms: Option<u32>,
    /// Per-seat amount committed this street. This is a UI affordance only; the
    /// authoritative pot total is `pot_total`.
    pub bet_this_street: Vec<(usize, u32)>,
}

/// A hand in flight, with its lists as sequences.
#[verifier::ext_equal]
pub struct HandSight {
    pub hand_id: u64,
    pub dealer: usize,
    pub street: Street,
    pub hole_cards: Option<(u8, u8)>,
    pub board: Seq<u8>,
    pub pot_total: u32,
    pub folded_seats: Seq<usize>,
    pub all_in_seats: Seq<usize>,
    pub awaiting_action: bool,
    pub legal_actions: Option<LegalActions>,
    pub action_deadline_ms: Option<u32>,
    pub bets: Seq<(usize, u32)>,
}

/// A client view, with its lists as sequences.
#[verifier::ext_equal]
pub struct ViewSight {
    pub phase: Phase,
    pub player_id: Option<PlayerId>,
    pub username: Option<String>,
    pub lifetime_stats: Option<LifetimeStats>,
    pub tables: Seq<TableInfo>,
    pub seats: Seq<SeatInfo>,
    pub button: Option<usize>,
    pub current_hand: Option<HandSight>,
    pub last_action_rejection: Option<String>,
}

impl View for CurrentHand {
    type V = HandSight;

    open spec fn view(&self) -> HandSight {
        HandSight {
            hand_id: self.hand_id,
            dealer: self.dealer,
            street: self.street,
            hole_cards: match self.hole_cards {
                Some(cards) => Some((cards@[0], cards@[1])),
                None => None,
            },
            board: self.board@,
            pot_total: self.pot_total,
            folded_seats: self.folded_seats@,
            all_in_seats: self.all_in_seats@,
            awaiting_action: self.awaiting_action,
            legal_actions: self.legal_actions,
            action_deadline_ms: self.action_deadline_ms,
            bets: self.bet_this_street@,
        }
    }
}

/// The hand in flight, if there is one.
pub open spec fn hand_sight(hand: Option<CurrentHand>) -> Option<HandSight> {
    match hand {
        Some(h) => Some(h@),
        None => None,
    }
}

impl View for ClientView {
    type V = ViewSight;

    open spec fn view(&self) -> ViewSight {
        ViewSight {
            phase: self.phase,
            player_id: self.player_id,
            username: self.username,
            lifetime_stats: self.lifetime_stats,
            tables: self.tables@,
            seats: self.seats@,
            button: self.button,
            current_hand: hand_sight(self.current_hand),
            last_action_rejection: self.last_action_rejection,
        }
    }
}

impl Clone for CurrentHand {
    fn clone(&self) -> (hand: CurrentHand)
        ensures
            hand@ == self@,
    {
        let hand = CurrentHand {
            hand_id: self.hand_id,
            dealer: self.dealer,
            street: self.street,
            hole_cards: self.hole_cards,
            board: self.board.clone(),
            pot_total: self.pot_total,
            folded_seats: self.folded_seats.clone(),
            all_in_seats: self.all_in_seats.clone(),
            awaiting_action: self.awaiting_action,
            legal_actions: self.legal_actions,
            action_deadline_ms: self.action_deadline_ms,
            bet_this_street: copy_bets(&self.bet_this_street),
        };
        assert(hand@ =~= self@);
        hand
    }
}

fn copy_bets(bets: &Vec<(usize, u32)>) -> (r: Vec<(usize, u32)>)
    ensures
        r@ == bets@,
{
    let mut r: Vec<(usize, u32)> = Vec::new();
    let mut i: usize = 0;
    while i < bets.len()
        invariant
            i <= bets@.len(),
            r@ == bets@.take(i as int),
        decreases bets@.len() - i,
    {
        r.push((bets[i].0, bets[i].1));
        assert(bets@.take(i + 1) =~= bets@.take(i as int).push(bets@[i as int]));
        i = i + 1;
    }
    assert(bets@.take(i as int) =~= bets@);
    r
}

impl Clone for ClientView {
    fn clone(&self) -> (view: ClientView)
        ensures
            view@ == self@,
    {
        let view = ClientView {
            phase: self.phase.clone(),
            player_id: self.player_id,
            username: protocol::copy_option(&self.username),
            lifetime_stats: self.lifetime_stats,
            tables: self.tables.clone(),
            seats: self.seats.clone(),
            button: self.button,
            current_hand: match &self.current_hand {
                Some(h) => Some(h.clone()),
                None => None,
            },
            last_action_rejection: protocol::copy_option(&self.last_action_rejection),
        };
        assert(view@ =~= self@);
        view
    }
}

impl ViewSight {
    /// Nothing known, no connection.
    pub open spec fn empty() -> ViewSight {
        ViewSight {
            phase: Phase::Disconnected,
            player_id: None,
            username: None,
            lifetime_stats: None,
            tables: Seq::empty(),
            seats: Seq::empty(),
            button: None,
            current_hand: None,
            last_action_rejection: None,
        }
    }

    /// Away from any table.
    pub open spec fn unseated(self) -> ViewSight {
        ViewSight { seats: Seq::empty(), button: None, current_hand: None, ..self }
    }
}

impl HandSight {
    /// A hand that just started.
    pub open spec fn started(hand_id: u64, dealer: usize) -> HandSight {
        HandSight {
            hand_id,
            dealer,
            street: Street::Preflop,
            hole_cards: None,
            board: Seq::empty(),
            pot_total: 0,
            folded_seats: Seq::empty(),
            all_in_seats: Seq::empty(),
            awaiting_action: false,
            legal_actions: None,
            action_deadline_ms: None,
            bets: Seq::empty(),
        }
    }
}

impl ClientView {
    pub(crate) fn empty() -> (view: ClientView)
        ensures
            view@ == ViewSight::empty(),
    {
        let view = ClientView {
            phase: Phase::Disconnected,
            player_id: None,
            username: None,
            lifetime_stats: None,
            tables: Vec::new(),
            seats: Vec::new(),
            button: None,
            current_hand: None,
            last_action_rejection: None,
        };
        assert(view@ =~= ViewSight::empty());
        view
    }

    /// Leaves the table: no seats, no button, no hand.
    pub(crate) fn unseat(&mut self)
        ensures
            final(self)@ == old(self)@.unseated(),
    {
        self.seats.clear();
        self.button = None;
        self.current_hand = None;
        assert(self@ =~= old(self)@.unseated());
    }

    /// Our own seat index when seated, or `None` otherwise.
    pub fn our_seat(&self) -> (seat: Option<usize>)
        ensures
            seat == (match self.phase {
                Phase::Seated { seat, .. } => Some(seat),
                _ => None,
            }),
    {
        match &self.phase {
            Phase::Seated { seat, .. } => Some(*seat),
            _ => None,
        }
    }
}

impl CurrentHand {
    pub(crate) fn started(hand_id: u64, dealer: usize) -> (hand: CurrentHand)
        ensures
            hand@ == HandSight::started(hand_id, dealer),
    {
        let hand = CurrentHand {
            hand_id,
            dealer,
            street: Street::Preflop,
            hole_cards: None,
            board: Vec::new(),
            pot_total: 0,
            folded_seats: Vec::new(),
            all_in_seats: Vec::new(),
            awaiting_action: false,
            legal_actions: None,
            action_deadline_ms: None,
            bet_this_street: Vec::new(),
        };
        assert(hand@ =~= HandSight::started(hand_id, dealer));
        hand
    }
}

} // verus!
