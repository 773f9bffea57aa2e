//! Live mode: connect to a server, sit at a table, play hands.

use vstd::prelude::*;

use super::live_net::LiveEvent;
use super::snapshot;
use super::snapshot::{SnapSight, Snapshot};
use crate::game::action::{Action, LegalActions};
use crate::game::state::{HandId, SeatIndex};
use crate::net::protocol::{
    ClientMessage, PlayerId, SeatInfo, ServerMessage, TableId, TableInfo,
};
use crate::text;

verus! {

/// What the client is currently doing.
#[derive(Debug)]
#[allow(inconsistent_fields)]
pub enum LivePhase {
    /// The handshake is under way.
    Connecting,
    /// Handshake done; the user is browsing the lobby.
    Lobby,
    /// Sitting at a table.
    Seated {
        table_id: TableId,
        my_seat: SeatIndex,
        seats: Vec<SeatInfo>,
        button: Option<SeatIndex>,
        snapshot: Snapshot,
    },
    /// Connection closed.
    Ended(String),
}

/// A question that the server waits on.
#[derive(Debug, Clone, Copy, PartialEq, Eq, Structural)]
pub struct PendingPrompt {
    pub table_id: TableId,
    pub hand_id: HandId,
    pub seat: SeatIndex,
    pub legal: LegalActions,
    /// When it arrived, in milliseconds of the host's clock.
    pub received_at: u64,
    pub deadline_ms: u32,
    /// Where the raise slider stands.
    pub raise_to: u32,
}

/// How long an error is shown, in milliseconds.
pub const TOAST_MS: u64 = 6000;

/// The buy-in that the lobby offers at first.
pub const FIRST_BUY_IN: u32 = 200;

/// The client's state.
pub struct LiveApp {
    addr: String,
    username: String,
    me: Option<PlayerId>,
    phase: LivePhase,
    tables: Vec<TableInfo>,
    pending: Option<PendingPrompt>,
    /// Most recent error of the server, and when it came.
    last_error: Option<(u64, String)>,
}

/// What the client is currently doing.
#[verifier::ext_equal]
#[allow(inconsistent_fields)]
pub enum LivePhaseSight {
    Connecting,
    Lobby,
    Seated {
        table_id: TableId,
        my_seat: SeatIndex,
        seats: Seq<SeatInfo>,
        button: Option<SeatIndex>,
        snapshot: SnapSight,
    },
    Ended(Seq<char>),
}

impl View for LivePhase {
    type V = LivePhaseSight;

    open spec fn view(&self) -> LivePhaseSight {
        match self {
            LivePhase::Connecting => LivePhaseSight::Connecting,
            LivePhase::Lobby => LivePhaseSight::Lobby,
            LivePhase::Seated { table_id, my_seat, seats, button, snapshot } =>
                LivePhaseSight::Seated {
                table_id: *table_id,
                my_seat: *my_seat,
                seats: seats@,
                button: *button,
                snapshot: snapshot@,
            },
            LivePhase::Ended(reason) => LivePhaseSight::Ended(reason@),
        }
    }
}

/// The client's state.
#[verifier::ext_equal]
pub struct LiveSight {
    pub addr: Seq<char>,
    pub username: Seq<char>,
    pub me: Option<PlayerId>,
    pub phase: LivePhaseSight,
    pub tables: Seq<TableInfo>,
    pub pending: Option<PendingPrompt>,
    pub last_error: Option<(u64, Seq<char>)>,
}

/// An error and when it came.
pub open spec fn error_seen(e: Option<(u64, String)>) -> Option<(u64, Seq<char>)> {
    match e {
        Some((at, msg)) => Some((at, msg@)),
        None => None,
    }
}

impl View for LiveApp {
    type V = LiveSight;

    closed spec fn view(&self) -> LiveSight {
        LiveSight {
            addr: self.addr@,
            username: self.username@,
            me: self.me,
            phase: self.phase@,
            tables: self.tables@,
            pending: self.pending,
            last_error: error_seen(self.last_error),
        }
    }
}

/// After a message of the server, and what is sent in return.
pub open spec fn after_server(s: LiveSight, msg: ServerMessage, now: u64) -> (
    LiveSight,
    Option<ClientMessage>,
) {
    match msg {
        ServerMessage::Welcome { player_id, .. } => (
            LiveSight { me: Some(player_id), phase: LivePhaseSight::Lobby, ..s },
            Some(ClientMessage::ListTables),
        ),
        ServerMessage::Rejected { reason, .. } => (
            LiveSight { phase: LivePhaseSight::Ended("rejected: "@ + reason@), ..s },
            None,
        ),
        ServerMessage::TableList { tables } => (LiveSight { tables: tables@, ..s }, None),
        ServerMessage::JoinedTable { table_id, seat, seats } => (
            LiveSight {
                phase: LivePhaseSight::Seated {
                    table_id,
                    my_seat: seat,
                    seats: seats@,
                    button: None,
                    snapshot: SnapSight::blank(),
                },
                ..s
            },
            None,
        ),
        ServerMessage::LeftTable { .. } => (
            LiveSight { phase: LivePhaseSight::Lobby, pending: None, ..s },
            Some(ClientMessage::ListTables),
        ),
        ServerMessage::TableState { seats: new_seats, button: btn, .. } => (
            match s.phase {
                LivePhaseSight::Seated { table_id, my_seat, snapshot, .. } => LiveSight {
                    phase: LivePhaseSight::Seated {
                        table_id,
                        my_seat,
                        seats: new_seats@,
                        button: Some(btn),
                        snapshot,
                    },
                    ..s
                },
                _ => s,
            },
            None,
        ),
        ServerMessage::TableEvent { event, .. } => (
            match s.phase {
                LivePhaseSight::Seated { table_id, my_seat, seats, button, snapshot } =>
                    LiveSight {
                    phase: LivePhaseSight::Seated {
                        table_id,
                        my_seat,
                        seats,
                        button,
                        snapshot: snapshot::after_event(snapshot, event@),
                    },
                    ..s
                },
                _ => s,
            },
            None,
        ),
        ServerMessage::Prompt { table_id, hand_id, seat, legal, deadline_ms } => (
            LiveSight {
                pending: Some(
                    PendingPrompt {
                        table_id,
                        hand_id,
                        seat,
                        legal,
                        received_at: now,
                        deadline_ms,
                        raise_to: if legal.can_raise {
                            legal.min_raise
                        } else {
                            0
                        },
                    },
                ),
                ..s
            },
            None,
        ),
        ServerMessage::ActionRejected { reason } => (
            LiveSight { last_error: Some((now, reason@)), ..s },
            None,
        ),
        ServerMessage::ReplayEvents { .. } => (s, None),
        ServerMessage::Heartbeat => (s, None),
        ServerMessage::Goodbye { reason } => (
            LiveSight { phase: LivePhaseSight::Ended("server goodbye: "@ + reason@), ..s },
            None,
        ),
    }
}

/// After an event of the network worker, and what is sent in return.
pub open spec fn after_live(s: LiveSight, ev: LiveEvent, now: u64) -> (
    LiveSight,
    Option<ClientMessage>,
) {
    match ev {
        LiveEvent::Connecting => (s, None),
        LiveEvent::Disconnected(reason) => (
            LiveSight { phase: LivePhaseSight::Ended(reason@), pending: None, ..s },
            None,
        ),
        LiveEvent::Server(msg) => after_server(s, msg, now),
    }
}

/// A table event in `ev` names a seat that a list can have room for.
pub open spec fn event_fits(ev: LiveEvent) -> bool {
    ev matches LiveEvent::Server(ServerMessage::TableEvent { event, .. }) ==> snapshot::seat_fits(
        event@,
    )
}

/// What the action panel shows.
#[derive(Debug)]
pub enum Panel {
    /// Nobody is asked.
    Idle,
    /// Another seat is asked.
    WaitingOn(SeatIndex),
    /// We are asked, and have this many milliseconds left.
    Turn { prompt: PendingPrompt, remaining_ms: u32 },
}

impl LiveApp {
    pub fn new(addr: String, username: String) -> (app: LiveApp)
        ensures
            app@ == (LiveSight {
                addr: addr@,
                username: username@,
                me: None,
                phase: LivePhaseSight::Connecting,
                tables: Seq::empty(),
                pending: None,
                last_error: None,
            }),
    {
        LiveApp {
            addr,
            username,
            me: None,
            phase: LivePhase::Connecting,
            tables: Vec::new(),
            pending: None,
            last_error: None,
        }
    }

    /// What the client is currently doing.
    pub fn phase(&self) -> (phase: &LivePhase)
        ensures
            phase@ == self@.phase,
    {
        &self.phase
    }

    /// Our number with the server, once it has welcomed us.
    pub fn player_id(&self) -> (id: Option<PlayerId>)
        ensures
            id == self@.me,
    {
        self.me
    }

    /// The tables of the lobby.
    pub fn tables(&self) -> (tables: &Vec<TableInfo>)
        ensures
            tables@ == self@.tables,
    {
        &self.tables
    }

    /// Takes in an event of the network worker, at `now` milliseconds of the host's
    /// clock. Returns the message to send in return, if any.
    pub fn handle_event(&mut self, ev: LiveEvent, now: u64) -> (reply: Option<ClientMessage>)
        requires
            event_fits(ev),
        ensures
            (final(self)@, reply) == after_live(old(self)@, ev, now),
    {
        match ev {
            LiveEvent::Connecting => None,
            LiveEvent::Disconnected(reason) => {
                self.phase = LivePhase::Ended(reason);
                self.pending = None;
                None
            },
            LiveEvent::Server(msg) => self.handle_server(msg, now),
        }
    }

    fn handle_server(&mut self, msg: ServerMessage, now: u64) -> (reply: Option<ClientMessage>)
        requires
            msg matches ServerMessage::TableEvent { event, .. } ==> snapshot::seat_fits(event@),
        ensures
            (final(self)@, reply) == after_server(old(self)@, msg, now),
    {
        match msg {
            ServerMessage::Welcome { player_id, .. } => {
                self.me = Some(player_id);
                self.phase = LivePhase::Lobby;
                // Ask for the table list immediately.
                Some(ClientMessage::ListTables)
            },
            ServerMessage::Rejected { reason, .. } => {
                let mut why = "rejected: ".to_owned();
                why.append(reason.as_str());
                self.phase = LivePhase::Ended(why);
                None
            },
            ServerMessage::TableList { tables } => {
                self.tables = tables;
                None
            },
            ServerMessage::JoinedTable { table_id, seat, seats } => {
                self.phase = LivePhase::Seated {
                    table_id,
                    my_seat: seat,
                    seats,
                    button: None,
                    snapshot: Snapshot::new(),
                };
                None
            },
            ServerMessage::LeftTable { .. } => {
                self.phase = LivePhase::Lobby;
                self.pending = None;
                Some(ClientMessage::ListTables)
            },
            ServerMessage::TableState { seats: new_seats, button: btn, .. } => {
                if let LivePhase::Seated { seats, button, .. } = &mut self.phase {
                    *seats = new_seats;
                    *button = Some(btn);
                }
                None
            },
            ServerMessage::TableEvent { event, .. } => {
                if let LivePhase::Seated { snapshot, .. } = &mut self.phase {
                    snapshot.apply(&event);
                }
                None
            },
            ServerMessage::Prompt { table_id, hand_id, seat, legal, deadline_ms } => {
                let raise_to: u32 = if legal.can_raise {
                    legal.min_raise
                } else {
                    0
                };
                self.pending = Some(
                    PendingPrompt {
                        table_id,
                        hand_id,
                        seat,
                        legal,
                        received_at: now,
                        deadline_ms,
                        raise_to,
                    },
                );
                None
            },
            ServerMessage::ActionRejected { reason } => {
                self.last_error = Some((now, reason));
                None
            },
            ServerMessage::ReplayEvents { .. } => None,
            ServerMessage::Heartbeat => None,
            ServerMessage::Goodbye { reason } => {
                let mut why = "server goodbye: ".to_owned();
                why.append(reason.as_str());
                self.phase = LivePhase::Ended(why);
                None
            },
        }
    }

    /// Answers the open prompt. Returns the message to send; nothing if no prompt is
    /// open.
    pub fn submit(&mut self, action: Action) -> (msg: Option<ClientMessage>)
        ensures
            final(self)@ == (LiveSight { pending: None, ..old(self)@ }),
            msg == match old(self)@.pending {
                Some(p) => Some(
                    ClientMessage::SubmitAction { table_id: p.table_id, hand_id: p.hand_id, action },
                ),
                None => None,
            },
    {
        match self.pending {
            Some(p) => {
                self.pending = None;
                Some(
                    ClientMessage::SubmitAction { table_id: p.table_id, hand_id: p.hand_id, action },
                )
            },
            None => None,
        }
    }

    /// Moves the raise slider.
    pub fn set_raise(&mut self, raise_to: u32)
        ensures
            final(self)@ == (LiveSight {
                pending: match old(self)@.pending {
                    Some(p) => Some(PendingPrompt { raise_to, ..p }),
                    None => None,
                },
                ..old(self)@
            }),
    {
        if let Some(p) = self.pending {
            self.pending = Some(PendingPrompt { raise_to, ..p });
        }
    }

    /// Forgets an error that has been shown long enough by `now`.
    pub fn expire_error(&mut self, now: u64)
        ensures
            final(self)@ == (LiveSight {
                last_error: match old(self)@.last_error {
                    Some((at, msg)) => if now > at && now - at > TOAST_MS {
                        None
                    } else {
                        Some((at, msg))
                    },
                    None => None,
                },
                ..old(self)@
            }),
    {
        let old_enough = match &self.last_error {
            Some((at, _)) => now > *at && now - *at > TOAST_MS,
            None => false,
        };
        if old_enough {
            self.last_error = None;
        }
    }

    /// The error that is shown, if any.
    pub fn error_line(&self) -> (line: Option<String>)
        ensures
            match self@.last_error {
                Some((at, msg)) => line matches Some(s) && s@ == "server: "@ + msg,
                None => line is None,
            },
    {
        match &self.last_error {
            Some((_, msg)) => {
                let mut s = "server: ".to_owned();
                s.append(msg.as_str());
                Some(s)
            },
            None => None,
        }
    }

    /// What the action panel shows to the player at `my_seat` at time `now`.
    pub fn panel(&self, my_seat: SeatIndex, now: u64) -> (panel: Panel)
        ensures
            match self@.pending {
                None => panel is Idle,
                Some(p) => if p.seat != my_seat {
                    panel == Panel::WaitingOn(p.seat)
                } else {
                    panel == (Panel::Turn {
                        prompt: p,
                        remaining_ms: if now < p.received_at {
                            p.deadline_ms
                        } else if now - p.received_at >= p.deadline_ms {
                            0
                        } else {
                            (p.deadline_ms - (now - p.received_at)) as u32
                        },
                    })
                },
            },
    {
        match self.pending {
            None => Panel::Idle,
            Some(p) => if p.seat != my_seat {
                Panel::WaitingOn(p.seat)
            } else {
                let elapsed: u64 = if now < p.received_at {
                    0
                } else {
                    now - p.received_at
                };
                let remaining_ms: u32 = if elapsed >= p.deadline_ms as u64 {
                    0
                } else {
                    p.deadline_ms - elapsed as u32
                };
                Panel::Turn { prompt: p, remaining_ms }
            },
        }
    }

    /// The client's state in the title bar.
    pub fn status(&self) -> (s: String)
        ensures
            s@ == match self@.phase {
                LivePhaseSight::Connecting => "connecting…"@,
                LivePhaseSight::Lobby => "lobby"@,
                LivePhaseSight::Seated { table_id, my_seat, .. } => "table "@ + text::decimal(
                    table_id as nat,
                ) + " · seat "@ + text::decimal(my_seat as nat),
                LivePhaseSight::Ended(_) => "disconnected"@,
            },
    {
        match &self.phase {
            LivePhase::Connecting => "connecting…".to_owned(),
            LivePhase::Lobby => "lobby".to_owned(),
            LivePhase::Seated { table_id, my_seat, .. } => {
                let mut s = "table ".to_owned();
                text::push_decimal(&mut s, *table_id as u64);
                s.append(" · seat ");
                text::push_decimal(&mut s, *my_seat as u64);
                assert(s@ =~= "table "@ + text::decimal(*table_id as nat) + " · seat "@
                    + text::decimal(*my_seat as nat));
                s
            },
            LivePhase::Ended(_) => "disconnected".to_owned(),
        }
    }
}

/// Leaving the table, or the connection, drops the open prompt.
pub proof fn leaving_drops_the_prompt(s: LiveSight, table_id: TableId, reason: String, now: u64)
    ensures
        after_live(
            s,
            LiveEvent::Server(ServerMessage::LeftTable { table_id }),
            now,
        ).0.pending is None,
        after_live(s, LiveEvent::Disconnected(reason), now).0.pending is None,
{
}

/// A welcome leads to the lobby and asks for the tables, and so does getting up. A refusal,
/// a goodbye and a lost connection end the session; the first two say why.
pub proof fn sessions_begin_and_end(s: LiveSight, msg: ServerMessage, reason: String, now: u64)
    ensures
        ({
            let (after, reply) = after_live(s, LiveEvent::Server(msg), now);
            &&& msg matches ServerMessage::Welcome { player_id, .. } ==> {
                &&& after.phase == LivePhaseSight::Lobby
                &&& after.me == Some(player_id)
                &&& reply == Some(ClientMessage::ListTables)
            }
            &&& msg is LeftTable ==> after.phase == LivePhaseSight::Lobby && after.pending is None
                && reply == Some(ClientMessage::ListTables)
            &&& !(msg is Welcome) && !(msg is LeftTable) ==> reply is None
            &&& msg matches ServerMessage::Rejected { reason: r, .. } ==> after.phase
                == LivePhaseSight::Ended("rejected: "@ + r@)
            &&& msg matches ServerMessage::Goodbye { reason: r } ==> after.phase
                == LivePhaseSight::Ended("server goodbye: "@ + r@)
            &&& after_live(s, LiveEvent::Disconnected(reason), now).0.phase
                == LivePhaseSight::Ended(reason@)
        }),
{
}

/// Sitting down shows the seats and a blank table. From then on every event of the table is
/// taken into what is shown, and the state of the table replaces seats and button; neither
/// touches anything else.
pub proof fn live_tables_are_shown(s: LiveSight, msg: ServerMessage, now: u64)
    ensures
        ({
            let after = after_live(s, LiveEvent::Server(msg), now).0;
            &&& msg matches ServerMessage::JoinedTable { table_id, seat, seats } ==> after.phase == (
            LivePhaseSight::Seated {
                table_id,
                my_seat: seat,
                seats: seats@,
                button: None,
                snapshot: SnapSight::blank(),
            })
            &&& (s.phase matches LivePhaseSight::Seated {
                table_id,
                my_seat,
                seats,
                button,
                snapshot,
            } && msg matches ServerMessage::TableEvent { event, .. }) ==> {
                &&& after.phase is Seated
                &&& after.phase->table_id == s.phase->table_id
                &&& after.phase->my_seat == s.phase->my_seat
                &&& after.phase->seats == s.phase->seats
                &&& after.phase->button == s.phase->button
                &&& after.phase->snapshot == snapshot::after_event(
                    s.phase->snapshot,
                    msg->TableEvent_event@,
                )
                &&& after.pending == s.pending
            }
            &&& s.phase is Seated && msg is TableState ==> {
                &&& after.phase is Seated
                &&& after.phase->seats == msg->TableState_seats@
                &&& after.phase->button == Some(msg->button)
                &&& after.phase->snapshot == s.phase->snapshot
                &&& after.phase->table_id == s.phase->table_id
                &&& after.phase->my_seat == s.phase->my_seat
            }
            &&& msg matches ServerMessage::TableList { tables } ==> after.tables == tables@
                && after.phase == s.phase
        }),
{
}

/// A prompt is held with what is on offer and when it came; the slider starts at the
/// smallest raise. A rejection is noted with its time. Nothing else changes.
pub proof fn prompts_are_held(s: LiveSight, msg: ServerMessage, now: u64)
    ensures
        ({
            let after = after_live(s, LiveEvent::Server(msg), now).0;
            &&& msg matches ServerMessage::Prompt { table_id, hand_id, seat, legal, deadline_ms }
                ==> {
                &&& after.pending matches Some(p) && p.table_id == table_id && p.hand_id == hand_id
                    && p.seat == seat && p.legal == legal && p.received_at == now && p.deadline_ms
                    == deadline_ms && (legal.can_raise ==> p.raise_to == legal.min_raise)
                &&& after.phase == s.phase
            }
            &&& msg matches ServerMessage::ActionRejected { reason } ==> after.last_error == Some(
                (now, reason@),
            ) && after.phase == s.phase && after.pending == s.pending
            &&& msg is Heartbeat ==> after == s
        }),
{
}

} // verus!
