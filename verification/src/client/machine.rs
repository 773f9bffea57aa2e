//! The state machine: synchronous, deterministic, and the sole owner of the client's
//! authoritative state.

use vstd::prelude::*;

use super::effect;
use super::effect::{log, log1, log2, log3, Effect, LogLevel, Request};
use super::intent::Intent;
use super::view;
use super::view::{ClientView, CurrentHand, HandSight, Phase, ViewSight};
use crate::cards::Card;
use crate::game::action::{Action, LegalActions};
use crate::game::event::EngineEvent;
use crate::game::model::Event;
use crate::game::state::{HandId, SeatIndex};
use crate::net::protocol;
use crate::net::protocol::{AuthMode, ClientMessage, ServerMessage, TableId, PROTOCOL_VERSION};
use crate::text;

verus! {

/// The prompt that is open, or was answered last. It stays until it is superseded, so
/// that a rejected answer can re-arm it.
#[derive(Debug, Clone, Copy, PartialEq, Eq, Structural)]
pub struct ActivePrompt {
    pub table_id: TableId,
    pub hand_id: HandId,
    /// Seat the prompt was addressed to.
    pub seat: SeatIndex,
    pub legal: LegalActions,
}

/// The core's state, with its lists as sequences.
#[verifier::ext_equal]
pub struct CoreSight {
    pub view: ViewSight,
    /// Most recent session key.
    pub session_key: Option<String>,
    /// Between the opening of a connection and its end.
    pub connection_open: bool,
    /// Handshake that waits for the connection.
    pub pending: Option<ClientMessage>,
    pub prompt: Option<ActivePrompt>,
}

// ---------------------------------------------------------------------------
// What intents do
// ---------------------------------------------------------------------------

/// A log line.
pub open spec fn line(
    level: LogLevel,
    message: Seq<char>,
    fields: Seq<(Seq<char>, Seq<char>)>,
) -> Request {
    Request::Log { level, message, fields }
}

/// A number in a log field.
pub open spec fn num(n: int) -> Seq<char> {
    text::decimal(n as nat)
}

/// Away from any table, in `phase`.
pub open spec fn moved_to(c: CoreSight, phase: Phase) -> CoreSight {
    CoreSight { view: ViewSight { phase, ..c.view.unseated() }, prompt: None, ..c }
}

/// Without connection, and with nothing remembered but the session key.
pub open spec fn reset(c: CoreSight, phase: Phase) -> CoreSight {
    CoreSight {
        view: ViewSight { phase, ..ViewSight::empty() },
        session_key: c.session_key,
        connection_open: false,
        pending: None,
        prompt: None,
    }
}

/// A handshake is sent where the connection is open, and held back otherwise.
pub open spec fn after_handshake(c: CoreSight, msg: ClientMessage) -> (CoreSight, Seq<Request>) {
    if c.connection_open {
        (moved_to(c, Phase::Authenticating), seq![Request::Send(msg)])
    } else {
        (
            CoreSight { pending: Some(msg), ..c },
            seq![
                line(
                    LogLevel::Debug,
                    "core: connection not yet open, queued handshake"@,
                    Seq::empty(),
                ),
            ],
        )
    }
}

/// An action is sent where a prompt is open and allows it, and ignored otherwise.
pub open spec fn after_submit(c: CoreSight, action: Action) -> (CoreSight, Seq<Request>) {
    let field = seq![("action"@, action.name())];
    match (c.view.current_hand, c.prompt) {
        (Some(h), Some(prompt)) if h.awaiting_action => if prompt.legal.allows(action) {
            (
                CoreSight {
                    view: ViewSight {
                        current_hand: Some(
                            HandSight {
                                awaiting_action: false,
                                legal_actions: None,
                                action_deadline_ms: None,
                                ..h
                            },
                        ),
                        ..c.view
                    },
                    ..c
                },
                seq![
                    Request::Send(
                        ClientMessage::SubmitAction {
                            table_id: prompt.table_id,
                            hand_id: prompt.hand_id,
                            action,
                        },
                    ),
                    line(LogLevel::Info, "core: submitted action"@, field),
                ],
            )
        } else {
            (
                c,
                seq![
                    line(
                        LogLevel::Warn,
                        "core: SubmitAction failed local legality check; ignoring"@,
                        field,
                    ),
                ],
            )
        },
        (Some(h), None) if h.awaiting_action => (
            c,
            seq![
                line(
                    LogLevel::Warn,
                    "core: SubmitAction with no active prompt record; ignoring"@,
                    field,
                ),
            ],
        ),
        _ => (
            c,
            seq![
                line(
                    LogLevel::Warn,
                    "core: SubmitAction with no live prompt; ignoring"@,
                    field,
                ),
            ],
        ),
    }
}

/// The kind of a client message.
pub open spec fn kind_name(msg: ClientMessage) -> Seq<char> {
    match msg {
        ClientMessage::Register { .. } => "Register"@,
        ClientMessage::Authenticate { .. } => "Authenticate"@,
        ClientMessage::ListTables => "ListTables"@,
        ClientMessage::JoinTable { .. } => "JoinTable"@,
        ClientMessage::LeaveTable { .. } => "LeaveTable"@,
        ClientMessage::SubmitAction { .. } => "SubmitAction"@,
        ClientMessage::RequestReplay { .. } => "RequestReplay"@,
        ClientMessage::Heartbeat => "Heartbeat"@,
        ClientMessage::Disconnect => "Disconnect"@,
    }
}

/// The core after an intent, and what it requests.
pub open spec fn after_intent(c: CoreSight, intent: Intent) -> (CoreSight, Seq<Request>) {
    match intent {
        Intent::Connect { addr } => (
            moved_to(c, Phase::Connecting),
            seq![
                Request::OpenConnection { addr },
                line(LogLevel::Info, "core: opening connection"@, seq![("addr"@, addr@)]),
            ],
        ),
        Intent::ConnectionOpened => match c.pending {
            Some(msg) => (
                moved_to(
                    CoreSight { connection_open: true, pending: None, ..c },
                    Phase::Authenticating,
                ),
                seq![
                    line(
                        LogLevel::Debug,
                        "core: connection opened, flushing pending handshake"@,
                        seq![("msg"@, kind_name(msg))],
                    ),
                    Request::Send(msg),
                ],
            ),
            None => (
                CoreSight { connection_open: true, ..c },
                seq![
                    line(
                        LogLevel::Debug,
                        "core: connection opened, awaiting handshake intent"@,
                        Seq::empty(),
                    ),
                ],
            ),
        },
        Intent::Register { email, username, password, device_label } => after_handshake(
            c,
            ClientMessage::Register {
                protocol_version: PROTOCOL_VERSION,
                email,
                username,
                password,
                device_label,
            },
        ),
        Intent::AuthenticatePassword { identifier, password, device_label } => after_handshake(
            c,
            ClientMessage::Authenticate {
                protocol_version: PROTOCOL_VERSION,
                mode: AuthMode::Password { identifier, password },
                device_label,
            },
        ),
        Intent::AuthenticateSession { key, device_label } => after_handshake(
            CoreSight { session_key: Some(key), ..c },
            ClientMessage::Authenticate {
                protocol_version: PROTOCOL_VERSION,
                mode: AuthMode::Session { key },
                device_label,
            },
        ),
        Intent::ListTables => (c, seq![Request::Send(ClientMessage::ListTables)]),
        Intent::JoinTable { table_id, buy_in } => (
            c,
            seq![Request::Send(ClientMessage::JoinTable { table_id, buy_in })],
        ),
        Intent::LeaveTable { table_id } => (
            c,
            seq![Request::Send(ClientMessage::LeaveTable { table_id })],
        ),
        Intent::SubmitAction { action } => after_submit(c, action),
        Intent::Heartbeat => (c, seq![Request::Send(ClientMessage::Heartbeat)]),
        Intent::Disconnect => (
            reset(c, Phase::Disconnected),
            seq![Request::Send(ClientMessage::Disconnect), Request::CloseConnection],
        ),
        Intent::ConnectionLost { reason } => (
            reset(c, Phase::Ended { reason }),
            seq![line(LogLevel::Warn, "core: connection lost"@, seq![("reason"@, reason@)])],
        ),
    }
}

// ---------------------------------------------------------------------------
// What messages do
// ---------------------------------------------------------------------------

/// We sit at `table_id`.
pub open spec fn seated_at(c: CoreSight, table_id: TableId) -> bool {
    c.view.phase matches Phase::Seated { table_id: t, .. } && t == table_id
}

/// `seat` at `table_id` is ours.
pub open spec fn addressed(c: CoreSight, table_id: TableId, seat: usize) -> bool {
    c.view.phase == (Phase::Seated { table_id, seat })
}

/// The core with its hand in flight replaced.
pub open spec fn with_hand(c: CoreSight, hand: Option<HandSight>) -> CoreSight {
    CoreSight { view: ViewSight { current_hand: hand, ..c.view }, ..c }
}

/// The position of the first bet of `seat`, from `i` on.
pub open spec fn bet_index(bets: Seq<(usize, u32)>, seat: usize, i: int) -> Option<int>
    decreases bets.len() - i,
{
    if i >= bets.len() {
        None
    } else if bets[i].0 == seat {
        Some(i)
    } else {
        bet_index(bets, seat, i + 1)
    }
}

/// The bets with that of `seat` set to `amount`.
pub open spec fn with_bet(bets: Seq<(usize, u32)>, seat: usize, amount: u32) -> Seq<(usize, u32)> {
    match bet_index(bets, seat, 0) {
        Some(i) => bets.update(i, (seat, amount)),
        None => bets.push((seat, amount)),
    }
}

/// The highest bet, or nothing.
pub open spec fn highest_bet(bets: Seq<(usize, u32)>) -> u32
    decreases bets.len(),
{
    if bets.len() == 0 {
        0
    } else {
        let h = highest_bet(bets.drop_last());
        if bets.last().1 > h {
            bets.last().1
        } else {
            h
        }
    }
}

/// The list with `seat` in it.
pub open spec fn with_member(seats: Seq<usize>, seat: usize) -> Seq<usize> {
    if seats.contains(seat) {
        seats
    } else {
        seats.push(seat)
    }
}

/// The hand after an action of `seat`: a check or call matches the highest bet, a
/// raise sets the bet, a fold keeps it; an all-in is told of separately.
pub open spec fn after_action(h: HandSight, seat: usize, action: Action, pot_total: u32) -> HandSight {
    let h1 = HandSight { pot_total, ..h };
    match action {
        Action::Fold => HandSight { folded_seats: with_member(h.folded_seats, seat), ..h1 },
        Action::Check => HandSight { bets: with_bet(h.bets, seat, highest_bet(h.bets)), ..h1 },
        Action::Call => HandSight { bets: with_bet(h.bets, seat, highest_bet(h.bets)), ..h1 },
        Action::Raise(to) => HandSight { bets: with_bet(h.bets, seat, to), ..h1 },
        Action::AllIn => h1,
    }
}

/// The numbers of cards.
pub open spec fn card_numbers(cards: Seq<Card>) -> Seq<u8> {
    Seq::new(cards.len(), |i: int| cards[i].id() as u8)
}

/// The core after a table event at our table, and what it requests.
pub open spec fn after_event(c: CoreSight, event: Event) -> (CoreSight, Seq<Request>) {
    let hand = c.view.current_hand;
    match event {
        Event::HandStarted { hand_id, dealer, deck_seed } => (
            CoreSight {
                view: ViewSight {
                    current_hand: Some(HandSight::started(hand_id, dealer)),
                    last_action_rejection: None,
                    ..c.view
                },
                prompt: None,
                ..c
            },
            seq![
                line(
                    LogLevel::Info,
                    "core: hand started"@,
                    seq![
                        ("hand_id"@, num(hand_id as int)),
                        ("dealer"@, num(dealer as int)),
                        ("deck_seed"@, num(deck_seed as int)),
                    ],
                ),
            ],
        ),
        Event::HoleCardsDealt { seat, hole } => if c.view.phase is Seated
            && c.view.phase->seat == seat {
            (
                with_hand(
                    c,
                    match hand {
                        Some(h) => Some(
                            HandSight {
                                hole_cards: Some((hole.0.id() as u8, hole.1.id() as u8)),
                                ..h
                            },
                        ),
                        None => None,
                    },
                ),
                seq![line(LogLevel::Debug, "core: hole cards dealt to us"@, Seq::empty())],
            )
        } else {
            (
                c,
                seq![
                    line(
                        LogLevel::Trace,
                        "core: HoleCardsDealt for another seat (unexpected; server should mask)"@,
                        seq![("seat"@, num(seat))],
                    ),
                ],
            )
        },
        Event::BoardDealt { street, cards } => match hand {
            Some(h) => (
                with_hand(
                    c,
                    Some(
                        HandSight {
                            street,
                            board: h.board + card_numbers(cards),
                            bets: Seq::empty(),
                            ..h
                        },
                    ),
                ),
                seq![
                    line(
                        LogLevel::Debug,
                        "core: board dealt"@,
                        seq![("street"@, street.name()), ("cards"@, num(cards.len() as int))],
                    ),
                ],
            ),
            None => (c, Seq::empty()),
        },
        Event::ActionTaken { seat, action, pot_total } => (
            with_hand(
                c,
                match hand {
                    Some(h) => Some(after_action(h, seat as usize, action, pot_total as u32)),
                    None => None,
                },
            ),
            seq![
                line(
                    LogLevel::Debug,
                    "core: action taken"@,
                    seq![
                        ("seat"@, num(seat)),
                        ("action"@, action.name()),
                        ("pot_total"@, num(pot_total)),
                    ],
                ),
            ],
        ),
        Event::PlayerAllIn { seat, total_committed } => (
            with_hand(
                c,
                match hand {
                    Some(h) => Some(
                        HandSight {
                            all_in_seats: with_member(h.all_in_seats, seat as usize),
                            bets: with_bet(h.bets, seat as usize, total_committed as u32),
                            ..h
                        },
                    ),
                    None => None,
                },
            ),
            seq![
                line(
                    LogLevel::Debug,
                    "core: player all-in"@,
                    seq![
                        ("seat"@, num(seat)),
                        ("total_committed"@, num(total_committed)),
                    ],
                ),
            ],
        ),
        Event::HandEnded { hand_id, result } => (
            CoreSight { prompt: None, ..with_hand(c, None) },
            seq![
                line(
                    LogLevel::Info,
                    "core: hand ended"@,
                    seq![("hand_id"@, num(hand_id as int))],
                ),
            ],
        ),
    }
}

/// The core after a table event, and what it requests: an event of another table
/// changes nothing.
pub open spec fn after_table_event(c: CoreSight, table_id: TableId, event: Event) -> (
    CoreSight,
    Seq<Request>,
) {
    if seated_at(c, table_id) {
        after_event(c, event)
    } else {
        (
            c,
            seq![
                line(
                    LogLevel::Warn,
                    "core: TableEvent for non-current table; ignoring"@,
                    seq![("table_id"@, num(table_id as int))],
                ),
            ],
        )
    }
}

/// The core after a message, and what it requests.
pub open spec fn after_message(c: CoreSight, msg: ServerMessage) -> (CoreSight, Seq<Request>)
    decreases msg,
{
    match msg {
        ServerMessage::Welcome { player_id, username, session_key, stats, .. } => {
            let c1 = moved_to(c, Phase::Lobby);
            (
                CoreSight {
                    view: ViewSight {
                        player_id: Some(player_id),
                        username: Some(username),
                        lifetime_stats: Some(stats),
                        ..c1.view
                    },
                    session_key: Some(session_key),
                    ..c1
                },
                seq![
                    Request::PersistSessionKey(Some(session_key)),
                    line(
                        LogLevel::Info,
                        "core: welcomed"@,
                        seq![
                            ("username"@, username@),
                            ("player_id"@, num(player_id as int)),
                        ],
                    ),
                ],
            )
        },
        ServerMessage::Rejected { reason, .. } => (
            CoreSight {
                connection_open: false,
                ..moved_to(c, Phase::Ended { reason })
            },
            seq![
                Request::CloseConnection,
                line(LogLevel::Warn, "core: handshake rejected"@, seq![("reason"@, reason@)]),
            ],
        ),
        ServerMessage::Goodbye { reason } => (
            reset(c, Phase::Ended { reason }),
            seq![
                Request::CloseConnection,
                line(LogLevel::Info, "core: goodbye"@, seq![("reason"@, reason@)]),
            ],
        ),
        ServerMessage::Heartbeat => (c, Seq::empty()),
        ServerMessage::TableList { tables } => (
            CoreSight { view: ViewSight { tables: tables@, ..c.view }, ..c },
            seq![
                line(
                    LogLevel::Debug,
                    "core: table list updated"@,
                    seq![("count"@, num(tables@.len() as int))],
                ),
            ],
        ),
        ServerMessage::JoinedTable { table_id, seat, seats } => (
            CoreSight {
                view: ViewSight {
                    phase: Phase::Seated { table_id, seat },
                    seats: seats@,
                    button: None,
                    current_hand: None,
                    last_action_rejection: None,
                    ..c.view
                },
                prompt: None,
                ..c
            },
            seq![
                line(
                    LogLevel::Info,
                    "core: seated"@,
                    seq![("table_id"@, num(table_id as int)), ("seat"@, num(seat as int))],
                ),
            ],
        ),
        ServerMessage::LeftTable { table_id } => (
            moved_to(c, Phase::Lobby),
            seq![
                line(
                    LogLevel::Info,
                    "core: left table"@,
                    seq![("table_id"@, num(table_id as int))],
                ),
            ],
        ),
        ServerMessage::TableState { table_id, seats, button } => if seated_at(c, table_id) {
            (
                CoreSight {
                    view: ViewSight { seats: seats@, button: Some(button), ..c.view },
                    ..c
                },
                seq![
                    line(
                        LogLevel::Debug,
                        "core: table state updated"@,
                        seq![
                            ("table_id"@, num(table_id as int)),
                            ("button"@, num(button as int)),
                        ],
                    ),
                ],
            )
        } else {
            (
                c,
                seq![
                    line(
                        LogLevel::Warn,
                        "core: TableState for non-current table; ignoring"@,
                        seq![("table_id"@, num(table_id as int))],
                    ),
                ],
            )
        },
        ServerMessage::TableEvent { table_id, event } => after_table_event(c, table_id, event@),
        ServerMessage::Prompt { table_id, hand_id, seat, legal, deadline_ms } => if addressed(
            c,
            table_id,
            seat,
        ) {
            (
                CoreSight {
                    view: ViewSight {
                        current_hand: match c.view.current_hand {
                            Some(h) => Some(
                                HandSight {
                                    awaiting_action: true,
                                    legal_actions: Some(legal),
                                    action_deadline_ms: Some(deadline_ms),
                                    ..h
                                },
                            ),
                            None => None,
                        },
                        last_action_rejection: None,
                        ..c.view
                    },
                    prompt: Some(ActivePrompt { table_id, hand_id, seat, legal }),
                    ..c
                },
                seq![
                    line(
                        LogLevel::Info,
                        "core: prompt received"@,
                        seq![
                            ("hand_id"@, num(hand_id as int)),
                            ("seat"@, num(seat as int)),
                            ("deadline_ms"@, num(deadline_ms as int)),
                        ],
                    ),
                ],
            )
        } else {
            (
                c,
                seq![
                    line(
                        LogLevel::Warn,
                        "core: Prompt not addressed to us; ignoring"@,
                        seq![("table_id"@, num(table_id as int)), ("seat"@, num(seat as int))],
                    ),
                ],
            )
        },
        ServerMessage::ActionRejected { reason } => (
            CoreSight {
                view: ViewSight {
                    current_hand: match (c.view.current_hand, c.prompt) {
                        (Some(h), Some(prompt)) => Some(
                            HandSight {
                                awaiting_action: true,
                                legal_actions: Some(prompt.legal),
                                ..h
                            },
                        ),
                        (hand, _) => hand,
                    },
                    last_action_rejection: Some(reason),
                    ..c.view
                },
                ..c
            },
            seq![line(LogLevel::Warn, "core: action rejected"@, seq![("reason"@, reason@)])],
        ),
        ServerMessage::ReplayEvents { hand_id, events } => {
            let fields = seq![
                ("hand_id"@, num(hand_id as int)),
                ("events"@, num(events@.len() as int)),
            ];
            let (c1, inner) = after_messages(c, events@, events@.len() as int);
            (
                c1,
                seq![line(LogLevel::Info, "core: replay begin"@, fields)] + inner + seq![
                    line(LogLevel::Info, "core: replay end"@, fields),
                ],
            )
        },
    }
}

/// The core after the first `n` of `msgs`, and what it requests.
pub open spec fn after_messages(c: CoreSight, msgs: Seq<ServerMessage>, n: int) -> (
    CoreSight,
    Seq<Request>,
)
    decreases msgs, n,
{
    if n <= 0 || n > msgs.len() {
        (c, Seq::empty())
    } else {
        let (c1, r1) = after_messages(c, msgs, n - 1);
        let (c2, r2) = after_message(c1, msgs[n - 1]);
        (c2, r1 + r2)
    }
}

/// The state machine. Owns everything that is the client's truth.
pub struct ClientCore {
    view: ClientView,
    session_key: Option<String>,
    connection_open: bool,
    pending_handshake: Option<ClientMessage>,
    active_prompt: Option<ActivePrompt>,
}

impl View for ClientCore {
    type V = CoreSight;

    closed spec fn view(&self) -> CoreSight {
        CoreSight {
            view: self.view@,
            session_key: self.session_key,
            connection_open: self.connection_open,
            pending: self.pending_handshake,
            prompt: self.active_prompt,
        }
    }
}


/// Appends one effect.
fn emit(out: &mut Vec<Effect>, e: Effect)
    ensures
        effect::requests(final(out)@) == effect::requests(old(out)@).push(e@),
{
    out.push(e);
    assert(effect::requests(out@) =~= effect::requests(old(out)@).push(e@));
}

/// The name of an action.
fn action_name(action: Action) -> (s: String)
    ensures
        s@ == action.name(),
{
    let mut s = String::new();
    action.push_name(&mut s);
    assert(s@ =~= action.name());
    s
}

fn kind_of_client_message(msg: &ClientMessage) -> (s: &'static str)
    ensures
        s@ == kind_name(*msg),
{
    match msg {
        ClientMessage::Register { .. } => "Register",
        ClientMessage::Authenticate { .. } => "Authenticate",
        ClientMessage::ListTables => "ListTables",
        ClientMessage::JoinTable { .. } => "JoinTable",
        ClientMessage::LeaveTable { .. } => "LeaveTable",
        ClientMessage::SubmitAction { .. } => "SubmitAction",
        ClientMessage::RequestReplay { .. } => "RequestReplay",
        ClientMessage::Heartbeat => "Heartbeat",
        ClientMessage::Disconnect => "Disconnect",
    }
}

/// Updates or inserts the bet of `seat`.
fn update_bet(bets: &mut Vec<(usize, u32)>, seat: usize, amount: u32)
    ensures
        final(bets)@ == with_bet(old(bets)@, seat, amount),
{
    let mut i: usize = 0;
    while i < bets.len()
        invariant
            i <= bets@.len(),
            bets@ == old(bets)@,
            bet_index(bets@, seat, 0) == bet_index(bets@, seat, i as int),
        decreases bets@.len() - i,
    {
        if bets[i].0 == seat {
            bets[i] = (seat, amount);
            return;
        }
        i = i + 1;
    }
    bets.push((seat, amount));
}

/// The highest bet, or nothing.
fn max_bet(bets: &Vec<(usize, u32)>) -> (m: u32)
    ensures
        m == highest_bet(bets@),
{
    let mut m: u32 = 0;
    let mut i: usize = 0;
    while i < bets.len()
        invariant
            i <= bets@.len(),
            m == highest_bet(bets@.take(i as int)),
        decreases bets@.len() - i,
    {
        assert(bets@.take(i + 1).drop_last() =~= bets@.take(i as int));
        if bets[i].1 > m {
            m = bets[i].1;
        }
        i = i + 1;
    }
    assert(bets@.take(i as int) =~= bets@);
    m
}

/// Adds `seat` to the list unless it is there.
fn add_member(seats: &mut Vec<usize>, seat: usize)
    ensures
        final(seats)@ == with_member(old(seats)@, seat),
{
    let mut i: usize = 0;
    while i < seats.len()
        invariant
            i <= seats@.len(),
            seats@ == old(seats)@,
            forall|k: int| 0 <= k < i ==> #[trigger] seats@[k] != seat,
        decreases seats@.len() - i,
    {
        if seats[i] == seat {
            assert(seats@[i as int] == seat);
            return;
        }
        i = i + 1;
    }
    seats.push(seat);
}

impl ClientCore {
    pub fn new(initial_session_key: Option<String>) -> (core: ClientCore)
        ensures
            core@ == (CoreSight {
                view: ViewSight::empty(),
                session_key: initial_session_key,
                connection_open: false,
                pending: None,
                prompt: None,
            }),
    {
        ClientCore {
            view: ClientView::empty(),
            session_key: initial_session_key,
            connection_open: false,
            pending_handshake: None,
            active_prompt: None,
        }
    }

    /// Read-only snapshot.
    pub fn snapshot(&self) -> (v: ClientView)
        ensures
            v@ == self@.view,
    {
        self.view.clone()
    }

    /// Whatever session key the host should persist.
    pub fn session_key(&self) -> (key: Option<&str>)
        ensures
            match self@.session_key {
                Some(k) => key matches Some(s) && s@ == k@,
                None => key is None,
            },
    {
        match &self.session_key {
            Some(k) => Some(k.as_str()),
            None => None,
        }
    }

    /// Leaves any table for `phase`.
    fn move_to(&mut self, phase: Phase)
        ensures
            final(self)@ == moved_to(old(self)@, phase),
    {
        self.view.unseat();
        self.view.phase = phase;
        self.active_prompt = None;
        assert(self@ =~= moved_to(old(self)@, phase));
    }

    fn reset_to(&mut self, phase: Phase)
        ensures
            final(self)@ == reset(old(self)@, phase),
    {
        self.view = ClientView::empty();
        self.view.phase = phase;
        self.connection_open = false;
        self.pending_handshake = None;
        self.active_prompt = None;
        assert(self@ =~= reset(old(self)@, phase));
    }

    /// Handles a command of the host. Returns the effects to perform.
    pub fn handle_intent(&mut self, intent: Intent) -> (out: Vec<Effect>)
        ensures
            (final(self)@, effect::requests(out@)) == after_intent(old(self)@, intent),
    {
        let ghost c = self@;
        let ghost goal = after_intent(c, intent);
        let mut out: Vec<Effect> = Vec::new();
        assert(effect::requests(out@) =~= Seq::<Request>::empty());
        match intent {
            Intent::Connect { addr } => {
                self.move_to(Phase::Connecting);
                emit(&mut out, Effect::OpenConnection { addr: addr.clone() });
                emit(&mut out, log1(LogLevel::Info, "core: opening connection", "addr", addr));
            },
            Intent::ConnectionOpened => {
                self.connection_open = true;
                match self.pending_handshake.take() {
                    Some(msg) => {
                        self.move_to(Phase::Authenticating);
                        emit(
                            &mut out,
                            log1(
                                LogLevel::Debug,
                                "core: connection opened, flushing pending handshake",
                                "msg",
                                kind_of_client_message(&msg).to_owned(),
                            ),
                        );
                        emit(&mut out, Effect::Send(msg));
                    },
                    None => {
                        emit(
                            &mut out,
                            log(
                                LogLevel::Debug,
                                "core: connection opened, awaiting handshake intent",
                            ),
                        );
                    },
                }
            },
            Intent::Register { email, username, password, device_label } => {
                let msg = ClientMessage::Register {
                    protocol_version: PROTOCOL_VERSION,
                    email,
                    username,
                    password,
                    device_label,
                };
                self.queue_or_send_handshake(msg, &mut out);
            },
            Intent::AuthenticatePassword { identifier, password, device_label } => {
                let msg = ClientMessage::Authenticate {
                    protocol_version: PROTOCOL_VERSION,
                    mode: AuthMode::Password { identifier, password },
                    device_label,
                };
                self.queue_or_send_handshake(msg, &mut out);
            },
            Intent::AuthenticateSession { key, device_label } => {
                self.session_key = Some(key.clone());
                let msg = ClientMessage::Authenticate {
                    protocol_version: PROTOCOL_VERSION,
                    mode: AuthMode::Session { key },
                    device_label,
                };
                self.queue_or_send_handshake(msg, &mut out);
            },
            Intent::ListTables => {
                emit(&mut out, Effect::Send(ClientMessage::ListTables));
            },
            Intent::JoinTable { table_id, buy_in } => {
                emit(&mut out, Effect::Send(ClientMessage::JoinTable { table_id, buy_in }));
            },
            Intent::LeaveTable { table_id } => {
                emit(&mut out, Effect::Send(ClientMessage::LeaveTable { table_id }));
            },
            Intent::SubmitAction { action } => {
                self.handle_submit_action(action, &mut out);
            },
            Intent::Heartbeat => {
                emit(&mut out, Effect::Send(ClientMessage::Heartbeat));
            },
            Intent::Disconnect => {
                emit(&mut out, Effect::Send(ClientMessage::Disconnect));
                emit(&mut out, Effect::CloseConnection);
                self.reset_to(Phase::Disconnected);
            },
            Intent::ConnectionLost { reason } => {
                self.reset_to(Phase::Ended { reason: reason.clone() });
                emit(&mut out, log1(LogLevel::Warn, "core: connection lost", "reason", reason));
            },
        }
        assert(self@ =~= goal.0);
        assert(effect::requests(out@) =~= goal.1);
        out
    }

    /// If the connection is not open yet, hold the message until it is. Otherwise
    /// send immediately.
    fn queue_or_send_handshake(&mut self, msg: ClientMessage, out: &mut Vec<Effect>)
        ensures
            final(self)@ == after_handshake(old(self)@, msg).0,
            effect::requests(final(out)@) == effect::requests(old(out)@) + after_handshake(
                old(self)@,
                msg,
            ).1,
    {
        if self.connection_open {
            self.move_to(Phase::Authenticating);
            emit(out, Effect::Send(msg));
        } else {
            self.pending_handshake = Some(msg);
            emit(out, log(LogLevel::Debug, "core: connection not yet open, queued handshake"));
        }
        assert(self@ =~= after_handshake(old(self)@, msg).0);
        assert(effect::requests(out@) =~= effect::requests(old(out)@) + after_handshake(
            old(self)@,
            msg,
        ).1);
    }

    fn handle_submit_action(&mut self, action: Action, out: &mut Vec<Effect>)
        ensures
            final(self)@ == after_submit(old(self)@, action).0,
            effect::requests(final(out)@) == effect::requests(old(out)@) + after_submit(
                old(self)@,
                action,
            ).1,
    {
        let ghost goal = after_submit(self@, action);
        // Two gates: there must be an open prompt, and we must not have answered it.
        let still_awaiting = match &self.view.current_hand {
            Some(h) => h.awaiting_action,
            None => false,
        };
        if !still_awaiting {
            emit(
                out,
                log1(
                    LogLevel::Warn,
                    "core: SubmitAction with no live prompt; ignoring",
                    "action",
                    action_name(action),
                ),
            );
            assert(effect::requests(out@) =~= effect::requests(old(out)@) + goal.1);
            return;
        }
        match self.active_prompt {
            None => {
                emit(
                    out,
                    log1(
                        LogLevel::Warn,
                        "core: SubmitAction with no active prompt record; ignoring",
                        "action",
                        action_name(action),
                    ),
                );
            },
            Some(prompt) => {
                if !prompt.legal.is_legal(action) {
                    emit(
                        out,
                        log1(
                            LogLevel::Warn,
                            "core: SubmitAction failed local legality check; ignoring",
                            "action",
                            action_name(action),
                        ),
                    );
                } else {
                    let msg = ClientMessage::SubmitAction {
                        table_id: prompt.table_id,
                        hand_id: prompt.hand_id,
                        action,
                    };
                    emit(out, Effect::Send(msg));
                    emit(
                        out,
                        log1(
                            LogLevel::Info,
                            "core: submitted action",
                            "action",
                            action_name(action),
                        ),
                    );
                    // Optimistic: stop waiting. The prompt stays, so that a rejection
                    // can re-arm it.
                    if let Some(h) = &mut self.view.current_hand {
                        h.awaiting_action = false;
                        h.legal_actions = None;
                        h.action_deadline_ms = None;
                    }
                }
            },
        }
        assert(self@ =~= goal.0);
        assert(effect::requests(out@) =~= effect::requests(old(out)@) + goal.1);
    }

    /// Handles a message of the server. Returns the effects to perform.
    pub fn handle_inbound(&mut self, msg: ServerMessage) -> (out: Vec<Effect>)
        ensures
            (final(self)@, effect::requests(out@)) == after_message(old(self)@, msg),
        decreases msg,
    {
        let ghost c = self@;
        let ghost goal = after_message(c, msg);
        let mut out: Vec<Effect> = Vec::new();
        assert(effect::requests(out@) =~= Seq::<Request>::empty());
        match msg {
            ServerMessage::Welcome { player_id, username, session_key, stats, .. } => {
                self.move_to(Phase::Lobby);
                self.view.player_id = Some(player_id);
                self.view.username = Some(username.clone());
                self.view.lifetime_stats = Some(stats);
                self.session_key = Some(session_key.clone());
                emit(&mut out, Effect::PersistSessionKey(Some(session_key)));
                emit(
                    &mut out,
                    log2(
                        LogLevel::Info,
                        "core: welcomed",
                        "username",
                        username,
                        "player_id",
                        text::number(player_id),
                    ),
                );
            },
            ServerMessage::Rejected { reason, .. } => {
                self.move_to(Phase::Ended { reason: reason.clone() });
                self.connection_open = false;
                emit(&mut out, Effect::CloseConnection);
                emit(&mut out, log1(LogLevel::Warn, "core: handshake rejected", "reason", reason));
            },
            ServerMessage::Goodbye { reason } => {
                self.reset_to(Phase::Ended { reason: reason.clone() });
                emit(&mut out, Effect::CloseConnection);
                emit(&mut out, log1(LogLevel::Info, "core: goodbye", "reason", reason));
            },
            ServerMessage::Heartbeat => {},
            ServerMessage::TableList { tables } => {
                let n: usize = tables.len();
                self.view.tables = tables;
                emit(
                    &mut out,
                    log1(
                        LogLevel::Debug,
                        "core: table list updated",
                        "count",
                        text::number(n as u64),
                    ),
                );
            },
            ServerMessage::JoinedTable { table_id, seat, seats } => {
                self.view.phase = Phase::Seated { table_id, seat };
                self.view.seats = seats;
                // Set by the next table state.
                self.view.button = None;
                self.view.current_hand = None;
                self.active_prompt = None;
                self.view.last_action_rejection = None;
                emit(
                    &mut out,
                    log2(
                        LogLevel::Info,
                        "core: seated",
                        "table_id",
                        text::number(table_id as u64),
                        "seat",
                        text::number(seat as u64),
                    ),
                );
            },
            ServerMessage::LeftTable { table_id } => {
                self.move_to(Phase::Lobby);
                emit(
                    &mut out,
                    log1(
                        LogLevel::Info,
                        "core: left table",
                        "table_id",
                        text::number(table_id as u64),
                    ),
                );
            },
            ServerMessage::TableState { table_id, seats, button } => {
                if self.sits_at(table_id) {
                    self.view.seats = seats;
                    self.view.button = Some(button);
                    emit(
                        &mut out,
                        log2(
                            LogLevel::Debug,
                            "core: table state updated",
                            "table_id",
                            text::number(table_id as u64),
                            "button",
                            text::number(button as u64),
                        ),
                    );
                } else {
                    emit(
                        &mut out,
                        log1(
                            LogLevel::Warn,
                            "core: TableState for non-current table; ignoring",
                            "table_id",
                            text::number(table_id as u64),
                        ),
                    );
                }
            },
            ServerMessage::TableEvent { table_id, event } => {
                self.project_engine_event(table_id, event, &mut out);
            },
            ServerMessage::Prompt { table_id, hand_id, seat, legal, deadline_ms } => {
                if self.is_ours(table_id, seat) {
                    self.active_prompt = Some(ActivePrompt { table_id, hand_id, seat, legal });
                    if let Some(h) = &mut self.view.current_hand {
                        h.awaiting_action = true;
                        h.legal_actions = Some(legal);
                        h.action_deadline_ms = Some(deadline_ms);
                    }
                    self.view.last_action_rejection = None;
                    emit(
                        &mut out,
                        log3(
                            LogLevel::Info,
                            "core: prompt received",
                            "hand_id",
                            text::number(hand_id),
                            "seat",
                            text::number(seat as u64),
                            "deadline_ms",
                            text::number(deadline_ms as u64),
                        ),
                    );
                } else {
                    emit(
                        &mut out,
                        log2(
                            LogLevel::Warn,
                            "core: Prompt not addressed to us; ignoring",
                            "table_id",
                            text::number(table_id as u64),
                            "seat",
                            text::number(seat as u64),
                        ),
                    );
                }
            },
            ServerMessage::ActionRejected { reason } => {
                // The last submission bounced: let the user try again.
                if let Some(prompt) = self.active_prompt {
                    if let Some(h) = &mut self.view.current_hand {
                        h.awaiting_action = true;
                        h.legal_actions = Some(prompt.legal);
                    }
                }
                self.view.last_action_rejection = Some(reason.clone());
                emit(&mut out, log1(LogLevel::Warn, "core: action rejected", "reason", reason));
            },
            ServerMessage::ReplayEvents { hand_id, events } => {
                let n: usize = events.len();
                let ghost all = events@;
                let ghost fields = seq![
                    ("hand_id"@, num(hand_id as int)),
                    ("events"@, num(n as int)),
                ];
                let ghost head = seq![line(LogLevel::Info, "core: replay begin"@, fields)];
                emit(
                    &mut out,
                    log2(
                        LogLevel::Info,
                        "core: replay begin",
                        "hand_id",
                        text::number(hand_id),
                        "events",
                        text::number(n as u64),
                    ),
                );
                assert(effect::requests(out@) =~= head + after_messages(c, all, 0).1);
                for event in it: events
                    invariant
                        it.seq() == all,
                        decreases_to!(msg => all),
                        self@ == after_messages(c, all, it.index() as int).0,
                        effect::requests(out@) == head + after_messages(
                            c,
                            all,
                            it.index() as int,
                        ).1,
                {
                    assert(event == all[it.index() as int]);
                    let ghost before = out@;
                    let nested = self.handle_inbound(event);
                    extend_effects(&mut out, nested);
                    proof {
                        let k = it.index() as int;
                        let c1 = after_messages(c, all, k);
                        let c2 = after_messages(c, all, k + 1);
                        assert(c2.1 == c1.1 + after_message(c1.0, all[k]).1);
                        assert((head + c1.1) + after_message(c1.0, all[k]).1 =~= head + c2.1);
                    }
                }
                emit(
                    &mut out,
                    log2(
                        LogLevel::Info,
                        "core: replay end",
                        "hand_id",
                        text::number(hand_id),
                        "events",
                        text::number(n as u64),
                    ),
                );
            },
        }
        assert(self@ =~= goal.0);
        assert(effect::requests(out@) =~= goal.1);
        out
    }

    /// Whether we sit at `table_id`.
    fn sits_at(&self, table_id: TableId) -> (r: bool)
        ensures
            r == seated_at(self@, table_id),
    {
        match &self.view.phase {
            Phase::Seated { table_id: t, .. } => *t == table_id,
            _ => false,
        }
    }

    /// Whether `seat` at `table_id` is ours.
    fn is_ours(&self, table_id: TableId, seat: usize) -> (r: bool)
        ensures
            r == addressed(self@, table_id, seat),
    {
        match &self.view.phase {
            Phase::Seated { table_id: t, seat: s } => *t == table_id && *s == seat,
            _ => false,
        }
    }

    fn project_engine_event(
        &mut self,
        table_id: TableId,
        event: EngineEvent,
        out: &mut Vec<Effect>,
    )
        ensures
            final(self)@ == after_table_event(old(self)@, table_id, event@).0,
            effect::requests(final(out)@) == effect::requests(old(out)@) + after_table_event(
                old(self)@,
                table_id,
                event@,
            ).1,
    {
        let ghost c = self@;
        let ghost goal = after_table_event(c, table_id, event@);
        let ghost sofar = effect::requests(out@);
        // Events should only arrive for our current table.
        if !self.sits_at(table_id) {
            emit(
                out,
                log1(
                    LogLevel::Warn,
                    "core: TableEvent for non-current table; ignoring",
                    "table_id",
                    text::number(table_id as u64),
                ),
            );
            assert(effect::requests(out@) =~= sofar + goal.1);
            return;
        }
        match event {
            EngineEvent::HandStarted { hand_id, dealer, deck_seed } => {
                self.view.current_hand = Some(CurrentHand::started(hand_id, dealer));
                self.view.last_action_rejection = None;
                self.active_prompt = None;
                emit(
                    out,
                    log3(
                        LogLevel::Info,
                        "core: hand started",
                        "hand_id",
                        text::number(hand_id),
                        "dealer",
                        text::number(dealer as u64),
                        "deck_seed",
                        text::number(deck_seed),
                    ),
                );
            },
            EngineEvent::HoleCardsDealt { seat, cards } => {
                if self.view.our_seat() == Some(seat) {
                    if let Some(h) = &mut self.view.current_hand {
                        h.hole_cards = Some([cards[0].index() as u8, cards[1].index() as u8]);
                    }
                    emit(out, log(LogLevel::Debug, "core: hole cards dealt to us"));
                } else {
                    emit(
                        out,
                        log1(
                            LogLevel::Trace,
                            "core: HoleCardsDealt for another seat (unexpected; server should mask)",
                            "seat",
                            text::number(seat as u64),
                        ),
                    );
                }
            },
            EngineEvent::BoardDealt { street, cards } => {
                if let Some(h) = &mut self.view.current_hand {
                    h.street = street;
                    push_cards(&mut h.board, &cards);
                    // New street: reset per-seat bet projection.
                    h.bet_this_street.clear();
                    emit(
                        out,
                        log2(
                            LogLevel::Debug,
                            "core: board dealt",
                            "street",
                            street.as_str().to_owned(),
                            "cards",
                            text::number(cards.len() as u64),
                        ),
                    );
                }
            },
            EngineEvent::ActionTaken { seat, action, pot_total } => {
                if let Some(h) = &mut self.view.current_hand {
                    note_action(h, seat, action, pot_total);
                }
                emit(
                    out,
                    log3(
                        LogLevel::Debug,
                        "core: action taken",
                        "seat",
                        text::number(seat as u64),
                        "action",
                        action_name(action),
                        "pot_total",
                        text::number(pot_total as u64),
                    ),
                );
            },
            EngineEvent::PlayerAllIn { seat, total_committed } => {
                if let Some(h) = &mut self.view.current_hand {
                    add_member(&mut h.all_in_seats, seat);
                    // Over-counts if prior streets contributed; acceptable for a UI.
                    update_bet(&mut h.bet_this_street, seat, total_committed);
                }
                emit(
                    out,
                    log2(
                        LogLevel::Debug,
                        "core: player all-in",
                        "seat",
                        text::number(seat as u64),
                        "total_committed",
                        text::number(total_committed as u64),
                    ),
                );
            },
            EngineEvent::HandEnded { hand_id, result: _ } => {
                // The seat list with refreshed stacks arrives separately.
                self.view.current_hand = None;
                self.active_prompt = None;
                emit(
                    out,
                    log1(
                        LogLevel::Info,
                        "core: hand ended",
                        "hand_id",
                        text::number(hand_id),
                    ),
                );
            },
        }
        assert(self@ =~= goal.0);
        assert(effect::requests(out@) =~= sofar + goal.1);
    }
}

/// Appends all of `more`.
fn extend_effects(out: &mut Vec<Effect>, more: Vec<Effect>)
    ensures
        effect::requests(final(out)@) == effect::requests(old(out)@) + effect::requests(more@),
{
    let mut more = more;
    let ghost all = more@;
    out.append(&mut more);
    assert(effect::requests(out@) =~= effect::requests(old(out)@) + effect::requests(all));
}

/// Appends the numbers of `cards`.
fn push_cards(board: &mut Vec<u8>, cards: &Vec<Card>)
    ensures
        final(board)@ == old(board)@ + card_numbers(cards@),
{
    let mut i: usize = 0;
    while i < cards.len()
        invariant
            i <= cards@.len(),
            board@ == old(board)@ + card_numbers(cards@).take(i as int),
        decreases cards@.len() - i,
    {
        board.push(cards[i].index() as u8);
        i = i + 1;
        assert(board@ =~= old(board)@ + card_numbers(cards@).take(i as int));
    }
    assert(card_numbers(cards@).take(i as int) =~= card_numbers(cards@));
}

/// Notes an action in the projection of the hand.
fn note_action(h: &mut CurrentHand, seat: usize, action: Action, pot_total: u32)
    ensures
        final(h)@ == after_action(old(h)@, seat, action, pot_total),
{
    h.pot_total = pot_total;
    match action {
        Action::Fold => {
            add_member(&mut h.folded_seats, seat);
        },
        Action::Check | Action::Call => {
            let max: u32 = max_bet(&h.bet_this_street);
            update_bet(&mut h.bet_this_street, seat, max);
        },
        Action::Raise(to) => {
            update_bet(&mut h.bet_this_street, seat, to);
        },
        Action::AllIn => {},
    }
    assert(h@ =~= after_action(old(h)@, seat, action, pot_total));
}

} // verus!
