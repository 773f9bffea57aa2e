use vstd::prelude::*;

use crate::cards::Card;
use crate::game::action::Action;
use crate::game::model;
use crate::game::state::{HandId, SeatIndex, Street};

verus! {

/// Every meaningful moment in a hand is emitted as an event.
/// The engine owns no log: callers consume events through an [`EventSink`].
#[derive(Debug)]
#[allow(inconsistent_fields)]
pub enum EngineEvent {
    HandStarted {
        hand_id: HandId,
        dealer: SeatIndex,
        /// Seed used to shuffle this hand's deck. Pin this to replay.
        deck_seed: u64,
    },
    HoleCardsDealt { seat: SeatIndex, cards: [Card; 2] },
    BoardDealt { street: Street, cards: Vec<Card> },
    ActionTaken {
        seat: SeatIndex,
        action: Action,
        /// Total pot size after the action (main and all side pots).
        pot_total: u32,
    },
    PlayerAllIn { seat: SeatIndex, total_committed: u32 },
    HandEnded { hand_id: HandId, result: HandResult },
}

/// Full outcome of a hand, emitted when it ends.
#[derive(Debug)]
pub struct HandResult {
    pub hand_id: HandId,
    pub board: Vec<Card>,
    /// One entry for each seat that was in the hand.
    pub seats: Vec<SeatOutcome>,
}

#[derive(Clone, Copy, Debug)]
pub struct SeatOutcome {
    pub seat: SeatIndex,
    pub hole_cards: Option<[Card; 2]>,
    /// Positive = won chips, negative = lost chips this hand.
    pub chip_delta: i32,
    /// True when this seat did not play a live hand (e.g. dead hand). Stats
    /// consumers should exclude such seats from per-hand metrics.
    pub sat_out: bool,
}

impl View for SeatOutcome {
    type V = model::SeatResult;

    open spec fn view(&self) -> model::SeatResult {
        model::SeatResult {
            seat: self.seat as int,
            hole: crate::game::state::hole_pair(self.hole_cards),
            chip_delta: self.chip_delta as int,
            sat_out: self.sat_out,
        }
    }
}

/// The outcomes seat by seat.
pub open spec fn seat_results(seats: Seq<SeatOutcome>) -> Seq<model::SeatResult> {
    Seq::new(seats.len(), |i: int| seats[i]@)
}

impl View for HandResult {
    type V = model::Outcome;

    open spec fn view(&self) -> model::Outcome {
        model::Outcome {
            hand_id: self.hand_id,
            board: self.board@,
            seats: seat_results(self.seats@),
        }
    }
}

impl Clone for HandResult {
    fn clone(&self) -> (result: HandResult)
        ensures
            result@ == self@,
    {
        HandResult {
            hand_id: self.hand_id,
            board: self.board.clone(),
            seats: self.seats.clone(),
        }
    }
}

impl View for EngineEvent {
    type V = model::Event;

    open spec fn view(&self) -> model::Event {
        match self {
            EngineEvent::HandStarted { hand_id, dealer, deck_seed } => model::Event::HandStarted {
                hand_id: *hand_id,
                dealer: *dealer,
                deck_seed: *deck_seed,
            },
            EngineEvent::HoleCardsDealt { seat, cards } => model::Event::HoleCardsDealt {
                seat: *seat as int,
                hole: (cards@[0], cards@[1]),
            },
            EngineEvent::BoardDealt { street, cards } => model::Event::BoardDealt {
                street: *street,
                cards: cards@,
            },
            EngineEvent::ActionTaken { seat, action, pot_total } => model::Event::ActionTaken {
                seat: *seat as int,
                action: *action,
                pot_total: *pot_total as int,
            },
            EngineEvent::PlayerAllIn { seat, total_committed } => model::Event::PlayerAllIn {
                seat: *seat as int,
                total_committed: *total_committed as int,
            },
            EngineEvent::HandEnded { hand_id, result } => model::Event::HandEnded {
                hand_id: *hand_id,
                result: result@,
            },
        }
    }
}

impl Clone for EngineEvent {
    fn clone(&self) -> (event: EngineEvent)
        ensures
            event@ == self@,
    {
        match self {
            EngineEvent::HandStarted { hand_id, dealer, deck_seed } => EngineEvent::HandStarted {
                hand_id: *hand_id,
                dealer: *dealer,
                deck_seed: *deck_seed,
            },
            EngineEvent::HoleCardsDealt { seat, cards } => EngineEvent::HoleCardsDealt {
                seat: *seat,
                cards: *cards,
            },
            EngineEvent::BoardDealt { street, cards } => EngineEvent::BoardDealt {
                street: *street,
                cards: cards.clone(),
            },
            EngineEvent::ActionTaken { seat, action, pot_total } => EngineEvent::ActionTaken {
                seat: *seat,
                action: *action,
                pot_total: *pot_total,
            },
            EngineEvent::PlayerAllIn { seat, total_committed } => EngineEvent::PlayerAllIn {
                seat: *seat,
                total_committed: *total_committed,
            },
            EngineEvent::HandEnded { hand_id, result } => EngineEvent::HandEnded {
                hand_id: *hand_id,
                result: result.clone(),
            },
        }
    }
}

/// Consumers implement this to receive events.
pub trait EventSink: Send {
    /// Receiving `event` can turn the sink into `next`. A sink that does not say
    /// may become anything.
    open spec fn takes(&self, event: model::Event, next: &Self) -> bool {
        true
    }

    fn on_event(&mut self, event: &EngineEvent)
        ensures
            old(self).takes(event@, final(self)),
    ;
}

/// Receiving `events` one after the other can turn the sink from `before` into
/// `after`.
pub open spec fn received<S: EventSink>(before: S, events: Seq<model::Event>, after: S) -> bool
    decreases events.len(),
{
    if events.len() == 0 {
        before == after
    } else {
        exists|mid: S|
            received(before, events.drop_last(), mid) && #[trigger] mid.takes(events.last(), &after)
    }
}

/// One more event at the end.
pub proof fn received_one_more<S: EventSink>(
    before: S,
    events: Seq<model::Event>,
    mid: S,
    event: model::Event,
    after: S,
)
    requires
        received(before, events, mid),
        mid.takes(event, &after),
    ensures
        received(before, events.push(event), after),
{
    assert(events.push(event).drop_last() =~= events);
    assert(mid.takes(events.push(event).last(), &after));
}

/// Two runs of events, one after the other.
pub proof fn received_in_turn<S: EventSink>(
    before: S,
    first: Seq<model::Event>,
    mid: S,
    second: Seq<model::Event>,
    after: S,
)
    requires
        received(before, first, mid),
        received(mid, second, after),
    ensures
        received(before, first + second, after),
    decreases second.len(),
{
    if second.len() == 0 {
        assert(first + second =~= first);
    } else {
        let last = choose|last: S|
            received(mid, second.drop_last(), last) && #[trigger] last.takes(second.last(), &after);
        received_in_turn(before, first, mid, second.drop_last(), last);
        assert((first + second).drop_last() =~= first + second.drop_last());
        assert(last.takes((first + second).last(), &after));
    }
}

/// Discards all events.
pub struct NullSink;

impl EventSink for NullSink {
    open spec fn takes(&self, event: model::Event, next: &Self) -> bool {
        true
    }

    fn on_event(&mut self, event: &EngineEvent) {
    }
}

/// Collects events into a vector. Useful for tests and replay capture.
pub struct VecSink {
    pub events: Vec<EngineEvent>,
}

impl Default for VecSink {
    fn default() -> (sink: VecSink)
        ensures
            sink@ == Seq::<model::Event>::empty(),
    {
        let sink = VecSink { events: Vec::new() };
        assert(sink@ =~= Seq::<model::Event>::empty());
        sink
    }
}

impl View for VecSink {
    type V = Seq<model::Event>;

    open spec fn view(&self) -> Seq<model::Event> {
        Seq::new(self.events@.len(), |i: int| self.events@[i]@)
    }
}

impl EventSink for VecSink {
    open spec fn takes(&self, event: model::Event, next: &Self) -> bool {
        next@ == self@.push(event)
    }

    fn on_event(&mut self, event: &EngineEvent) {
        self.events.push(event.clone());
        assert(self@ =~= old(self)@.push(event@));
    }
}

/// A collecting sink holds what it held before and then, in order, every event it
/// received.
pub proof fn vec_sink_keeps_everything(
    before: VecSink,
    events: Seq<model::Event>,
    after: VecSink,
)
    requires
        received(before, events, after),
    ensures
        after@ == before@ + events,
    decreases events.len(),
{
    if events.len() > 0 {
        let mid = choose|mid: VecSink|
            received(before, events.drop_last(), mid) && #[trigger] mid.takes(
                events.last(),
                &after,
            );
        vec_sink_keeps_everything(before, events.drop_last(), mid);
        assert(before@ + events =~= (before@ + events.drop_last()).push(events.last()));
    } else {
        assert(before@ + events =~= before@);
    }
}

} // verus!
