use vstd::prelude::*;

use crate::cards::Card;
use crate::game::lists::{Board, SeatList, SidePots};
use crate::game::model;

verus! {

pub type SeatIndex = usize;

pub type HandId = u64;

#[derive(Clone, Copy, Debug, PartialEq, Eq, PartialOrd, Ord, Hash, Structural)]
pub enum Street {
    Preflop,
    Flop,
    Turn,
    River,
    Showdown,
}

impl Street {
    /// The street's name.
    pub open spec fn name(self) -> Seq<char> {
        match self {
            Street::Preflop => "Preflop"@,
            Street::Flop => "Flop"@,
            Street::Turn => "Turn"@,
            Street::River => "River"@,
            Street::Showdown => "Showdown"@,
        }
    }

    /// The street's name.
    pub fn as_str(self) -> (s: &'static str)
        ensures
            s@ == self.name(),
    {
        match self {
            Street::Preflop => "Preflop",
            Street::Flop => "Flop",
            Street::Turn => "Turn",
            Street::River => "River",
            Street::Showdown => "Showdown",
        }
    }
}

#[derive(Clone, Copy, Debug, PartialEq, Eq, Structural)]
pub enum PlayerStatus {
    Active,
    Folded,
    AllIn,
    /// Sitting out / not in this hand.
    Out,
}

/// Per-seat designation for a single hand. Every seat is `Live` unless stated
/// otherwise.
#[derive(Clone, Copy, Debug, PartialEq, Eq, Structural)]
pub enum SeatKind {
    /// Normal participant: dealt in, posts blinds if in SB/BB, may act and win.
    Live,
    /// Dealt cards and posts any owed blind, but the hand is dead from the start:
    /// the seat cannot act or win. Used when an absent player is paying to hold
    /// their seat. The blind functions as a normal (live) blind.
    DeadHand,
}

impl Default for SeatKind {
    fn default() -> (kind: Self)
        ensures
            kind == SeatKind::Live,
    {
        SeatKind::Live
    }
}

/// Per-seat state for one hand. Cloned cheaply for tree search.
#[derive(Clone, Copy, Debug)]
pub struct PlayerState {
    /// Chips remaining (not yet committed to pot).
    pub stack: u32,
    pub hole_cards: Option<[Card; 2]>,
    /// Chips committed to the pot this street only (reset each street).
    pub bet_this_street: u32,
    /// Cumulative chips committed across all streets this hand. Used for side-pot
    /// calculation.
    pub total_committed: u32,
    pub status: PlayerStatus,
}

/// The two hole cards as a pair.
pub open spec fn hole_pair(hole: Option<[Card; 2]>) -> Option<(Card, Card)> {
    match hole {
        Some(cards) => Some((cards@[0], cards@[1])),
        None => None,
    }
}

impl View for PlayerState {
    type V = model::Seat;

    open spec fn view(&self) -> model::Seat {
        model::Seat {
            stack: self.stack as int,
            hole: hole_pair(self.hole_cards),
            bet: self.bet_this_street as int,
            committed: self.total_committed as int,
            status: self.status,
        }
    }
}

/// One side pot: the capped amount and which seats are eligible.
#[derive(Debug)]
pub struct SidePot {
    pub amount: u32,
    pub eligible_seats: SeatList,
}

impl Clone for SidePot {
    fn clone(&self) -> (pot: SidePot)
        ensures
            pot.amount == self.amount,
            pot.eligible_seats@ == self.eligible_seats@,
    {
        SidePot { amount: self.amount, eligible_seats: self.eligible_seats.clone() }
    }
}

/// Full pot state, tracking side pots from the start.
#[derive(Debug)]
pub struct Pot {
    pub main: u32,
    pub side: SidePots,
}

impl Clone for Pot {
    fn clone(&self) -> (pot: Pot)
        ensures
            pot.main == self.main,
            pot.side@ == self.side@,
    {
        Pot { main: self.main, side: self.side.clone() }
    }
}

impl Default for Pot {
    fn default() -> (pot: Pot)
        ensures
            pot.main == 0,
            pot.side@ == Seq::<(u32, Seq<usize>)>::empty(),
    {
        Pot { main: 0, side: SidePots::new() }
    }
}

impl Pot {
    /// The chips in the main pot and in all side pots.
    pub open spec fn spec_total(self) -> int {
        self.main + model::side_total(self.side@)
    }

    pub fn total(&self) -> (total: u32)
        requires
            self.spec_total() <= u32::MAX,
        ensures
            total == self.spec_total(),
    {
        let side = self.side.as_slice();
        let mut total: u32 = self.main;
        let mut i: usize = 0;
        assert(self.side@.take(0) =~= Seq::<(u32, Seq<usize>)>::empty());
        while i < side.len()
            invariant
                i <= side@.len() == self.side@.len(),
                forall|k: int|
                    0 <= k < side@.len() ==> (#[trigger] side@[k]).amount == self.side@[k].0,
                total == self.main + model::side_total(self.side@.take(i as int)),
                self.spec_total() <= u32::MAX,
            decreases side@.len() - i,
        {
            proof {
                assert(self.side@.take(i + 1).drop_last() =~= self.side@.take(i as int));
                model::side_total_grows(self.side@, i + 1);
            }
            assert(side@[i as int].amount == self.side@[i as int].0);
            total = total + side[i].amount;
            i = i + 1;
        }
        assert(self.side@.take(i as int) =~= self.side@);
        total
    }
}

/// Snapshot of the game visible to both engine and agents.
#[derive(Debug)]
pub struct GameState {
    pub hand_id: HandId,
    pub street: Street,
    pub board: Board,
    pub players: Vec<PlayerState>,
    pub pot: Pot,
    /// Index into `players` of the player currently to act. None = hand over.
    pub action_on: Option<SeatIndex>,
    pub dealer: SeatIndex,
    /// Seat of the last aggressor this street (for action-closing logic).
    pub last_aggressor: Option<SeatIndex>,
    /// How much it costs to call right now.
    pub current_bet: u32,
    /// Minimum raise increment (size of the last full valid bet or raise).
    /// Per TDA Rule 47A, this stays pegged to the last *full* raise: short
    /// all-ins never update it.
    pub min_raise_increment: u32,
    /// Sum of sub-minimum all-in increments since the last full raise.
    /// When this crosses `min_raise_increment`, betting reopens for players
    /// who have already acted (Rule 47A, "cumulative multiple short all-ins").
    pub cumulative_short_increment: u32,
    /// Per-seat flag set when the seat's hand is a dead hand (or otherwise
    /// should not be counted toward stats for this hand).
    pub sat_out: Vec<bool>,
}

/// The players' seats, one model per player.
pub open spec fn seats_of(players: Seq<PlayerState>) -> Seq<model::Seat> {
    Seq::new(players.len(), |i: int| players[i]@)
}

impl View for GameState {
    type V = model::Table;

    open spec fn view(&self) -> model::Table {
        model::Table {
            hand_id: self.hand_id,
            street: self.street,
            board: self.board@,
            seats: seats_of(self.players@),
            main: self.pot.main as int,
            side: self.pot.side@,
            action_on: self.action_on,
            dealer: self.dealer,
            last_aggressor: self.last_aggressor,
            current_bet: self.current_bet as int,
            increment: self.min_raise_increment as int,
            short: self.cumulative_short_increment as int,
            sat_out: self.sat_out@,
        }
    }
}

impl Clone for GameState {
    fn clone(&self) -> (state: GameState)
        ensures
            state@ == self@,
    {
        GameState {
            hand_id: self.hand_id,
            street: self.street,
            board: self.board.clone(),
            players: self.players.clone(),
            pot: self.pot.clone(),
            action_on: self.action_on,
            dealer: self.dealer,
            last_aggressor: self.last_aggressor,
            current_bet: self.current_bet,
            min_raise_increment: self.min_raise_increment,
            cumulative_short_increment: self.cumulative_short_increment,
            sat_out: self.sat_out.clone(),
        }
    }
}

impl GameState {
    /// The players who can still win, each with the seat.
    pub fn active_players(&self) -> (r: Vec<(SeatIndex, &PlayerState)>)
        ensures
            r@ == model::marked(model::in_play_marks(self@.seats)).map_values(
                |i: int| (i as usize, &self.players@[i]),
            ),
    {
        let mut r: Vec<(SeatIndex, &PlayerState)> = Vec::new();
        let ghost marks = model::in_play_marks(self@.seats);
        let ghost f = |i: int| (i as usize, &self.players@[i]);
        let mut i: usize = 0;
        while i < self.players.len()
            invariant
                i <= self.players@.len(),
                marks == model::in_play_marks(self@.seats),
                f == (|i: int| (i as usize, &self.players@[i])),
                r@ == model::marked(marks.take(i as int)).map_values(f),
            decreases self.players@.len() - i,
        {
            assert(marks.take(i + 1).drop_last() =~= marks.take(i as int));
            let p = &self.players[i];
            if p.status == PlayerStatus::Active || p.status == PlayerStatus::AllIn {
                r.push((i, p));
                assert(r@ =~= model::marked(marks.take(i + 1)).map_values(f));
            }
            i = i + 1;
        }
        assert(marks.take(i as int) =~= marks);
        r
    }

    /// How many players can still win.
    pub fn players_still_in(&self) -> (n: usize)
        ensures
            n == model::count(model::in_play_marks(self@.seats)),
    {
        let ghost marks = model::in_play_marks(self@.seats);
        let mut n: usize = 0;
        let mut i: usize = 0;
        while i < self.players.len()
            invariant
                i <= self.players@.len(),
                n <= i,
                marks == model::in_play_marks(self@.seats),
                n == model::count(marks.take(i as int)),
            decreases self.players@.len() - i,
        {
            assert(marks.take(i + 1).drop_last() =~= marks.take(i as int));
            let p = &self.players[i];
            if p.status == PlayerStatus::Active || p.status == PlayerStatus::AllIn {
                n = n + 1;
            }
            i = i + 1;
        }
        assert(marks.take(i as int) =~= marks);
        n
    }
}

} // verus!
