//! What holds of the client whatever it is told.

use vstd::prelude::*;

use super::effect::Request;
use super::intent::Intent;
use super::machine;
use super::machine::CoreSight;
use super::view::{HandSight, Phase, ViewSight};
use crate::game::action::{Action, LegalActions};
use crate::game::model::Event;
use crate::net::protocol::{
    AuthMode, ClientMessage, LifetimeStats, SeatInfo, ServerMessage, TableId, TableInfo, PROTOCOL_VERSION,
};

verus! {

// ---------------------------------------------------------------------------
// The state is always tidy
// ---------------------------------------------------------------------------

/// A hand offers actions exactly while it waits for ours; otherwise there is no
/// deadline either.
pub open spec fn hand_tidy(h: HandSight) -> bool {
    &&& h.awaiting_action <==> h.legal_actions is Some
    &&& !h.awaiting_action ==> h.action_deadline_ms is None
}

/// Seats, button and hand are there only while we are seated. A prompt is addressed to
/// us, and while a hand waits for our action, it is the prompt that it waits on.
pub open spec fn tidy(c: CoreSight) -> bool {
    &&& !(c.view.phase is Seated) ==> {
        &&& c.view.seats == Seq::<crate::net::protocol::SeatInfo>::empty()
        &&& c.view.button is None
        &&& c.view.current_hand is None
    }
    &&& c.view.current_hand matches Some(h) ==> hand_tidy(h)
    &&& c.prompt matches Some(p) ==> machine::addressed(c, p.table_id, p.seat)
    &&& c.view.current_hand matches Some(h) ==> h.awaiting_action ==> (c.prompt matches Some(p)
        && h.legal_actions == Some(p.legal))
}

/// A fresh core is tidy.
pub proof fn fresh_is_tidy(session_key: Option<String>)
    ensures
        tidy(
            CoreSight {
                view: ViewSight::empty(),
                session_key,
                connection_open: false,
                pending: None,
                prompt: None,
            },
        ),
{
}

/// Every intent keeps the core tidy.
pub proof fn intents_keep_tidy(c: CoreSight, intent: Intent)
    requires
        tidy(c),
    ensures
        tidy(machine::after_intent(c, intent).0),
{
}

/// Every table event keeps the core tidy.
proof fn events_keep_tidy(c: CoreSight, table_id: TableId, event: Event)
    requires
        tidy(c),
    ensures
        tidy(machine::after_table_event(c, table_id, event).0),
{
}

/// Every message keeps the core tidy.
pub proof fn messages_keep_tidy(c: CoreSight, msg: ServerMessage)
    requires
        tidy(c),
    ensures
        tidy(machine::after_message(c, msg).0),
    decreases msg,
{
    match msg {
        ServerMessage::TableEvent { table_id, event } => {
            events_keep_tidy(c, table_id, event@);
        },
        ServerMessage::ReplayEvents { hand_id, events } => {
            message_lists_keep_tidy(c, events@, events@.len() as int);
        },
        _ => {},
    }
}

proof fn message_lists_keep_tidy(c: CoreSight, msgs: Seq<ServerMessage>, n: int)
    requires
        tidy(c),
    ensures
        tidy(machine::after_messages(c, msgs, n).0),
    decreases msgs, n,
{
    if 0 < n <= msgs.len() {
        message_lists_keep_tidy(c, msgs, n - 1);
        messages_keep_tidy(machine::after_messages(c, msgs, n - 1).0, msgs[n - 1]);
    }
}

// ---------------------------------------------------------------------------
// Acting
// ---------------------------------------------------------------------------

/// The messages among `requests` that go to the server.
pub open spec fn sent(requests: Seq<Request>) -> Seq<ClientMessage>
    decreases requests.len(),
{
    if requests.len() == 0 {
        Seq::empty()
    } else {
        let head = sent(requests.drop_last());
        match requests.last() {
            Request::Send(msg) => head.push(msg),
            _ => head,
        }
    }
}

/// The core waits for our action and knows the prompt.
pub open spec fn prompted(c: CoreSight) -> bool {
    &&& c.view.current_hand matches Some(h) && h.awaiting_action
    &&& c.prompt is Some
}

/// An action that is not asked for, or that the prompt does not allow, changes nothing
/// and never reaches the wire.
pub proof fn stray_actions_stay_home(c: CoreSight, action: Action)
    requires
        !prompted(c) || !c.prompt->0.legal.allows(action),
    ensures
        machine::after_intent(c, Intent::SubmitAction { action }).0 == c,
        sent(machine::after_intent(c, Intent::SubmitAction { action }).1)
            == Seq::<ClientMessage>::empty(),
{
    let r = machine::after_intent(c, Intent::SubmitAction { action }).1;
    assert(r.len() == 1);
    assert(sent(r.drop_last()) == Seq::<ClientMessage>::empty());
}

/// An action that the open prompt allows is sent once, with the prompt's table and
/// hand, and then the core waits no more: a second one is not sent.
pub proof fn actions_are_sent_once(c: CoreSight, action: Action, again: Action)
    requires
        prompted(c),
        c.prompt->0.legal.allows(action),
    ensures
        ({
            let (c1, r1) = machine::after_intent(c, Intent::SubmitAction { action });
            let (c2, r2) = machine::after_intent(c1, Intent::SubmitAction { action: again });
            &&& sent(r1) == seq![
                ClientMessage::SubmitAction {
                    table_id: c.prompt->0.table_id,
                    hand_id: c.prompt->0.hand_id,
                    action,
                },
            ]
            &&& !prompted(c1)
            &&& c2 == c1
            &&& sent(r2) == Seq::<ClientMessage>::empty()
        }),
{
    let (c1, r1) = machine::after_intent(c, Intent::SubmitAction { action });
    let head = r1.drop_last();
    assert(head.len() == 1);
    assert(sent(head.drop_last()) == Seq::<ClientMessage>::empty());
    assert(sent(head) =~= seq![
        ClientMessage::SubmitAction {
            table_id: c.prompt->0.table_id,
            hand_id: c.prompt->0.hand_id,
            action,
        },
    ]);
    assert(sent(r1) == sent(head));
    stray_actions_stay_home(c1, again);
}

/// A rejection after an action was sent re-arms the prompt: the same actions are on
/// offer, and the reason can be shown.
pub proof fn rejection_rearms(c: CoreSight, action: Action, reason: String)
    requires
        prompted(c),
        c.prompt->0.legal.allows(action),
    ensures
        ({
            let c1 = machine::after_intent(c, Intent::SubmitAction { action }).0;
            let c2 = machine::after_message(c1, ServerMessage::ActionRejected { reason }).0;
            &&& prompted(c2)
            &&& c2.prompt == c.prompt
            &&& (c2.view.current_hand->0).legal_actions == Some(c.prompt->0.legal)
            &&& c2.view.last_action_rejection == Some(reason)
        }),
{
}

/// A prompt arms the hand in flight exactly if it is addressed to us; any other leaves
/// the core as it was.
pub proof fn prompts_for_others_are_ignored(
    c: CoreSight,
    table_id: TableId,
    hand_id: u64,
    seat: usize,
    legal: LegalActions,
    deadline_ms: u32,
)
    ensures
        ({
            let msg = ServerMessage::Prompt { table_id, hand_id, seat, legal, deadline_ms };
            let c1 = machine::after_message(c, msg).0;
            if c.view.phase == (Phase::Seated { table_id, seat }) {
                c.view.current_hand is Some ==> (c1.view.current_hand matches Some(h)
                    && h.awaiting_action && h.legal_actions == Some(legal))
            } else {
                c1 == c
            }
        }),
{
}

// ---------------------------------------------------------------------------
// Seeing
// ---------------------------------------------------------------------------

/// Another seat's hole cards are never stored.
pub proof fn other_hole_cards_are_ignored(
    c: CoreSight,
    table_id: TableId,
    seat: int,
    hole: (crate::cards::Card, crate::cards::Card),
)
    requires
        !(c.view.phase is Seated && c.view.phase->seat == seat),
    ensures
        machine::after_table_event(c, table_id, Event::HoleCardsDealt { seat, hole }).0 == c,
{
}

/// What happens at another table changes nothing.
pub proof fn other_tables_are_ignored(c: CoreSight, table_id: TableId, event: Event)
    requires
        !machine::seated_at(c, table_id),
    ensures
        machine::after_table_event(c, table_id, event).0 == c,
{
}

/// A replay leads to the state that its messages lead to one by one.
pub proof fn replay_is_live_play(c: CoreSight, hand_id: u64, events: Vec<ServerMessage>)
    ensures
        machine::after_message(c, ServerMessage::ReplayEvents { hand_id, events }).0
            == machine::after_messages(c, events@, events@.len() as int).0,
{
}

/// Two cores that agree on the table they sit at, on the hand and on the prompt.
pub open spec fn same_game(a: CoreSight, b: CoreSight) -> bool {
    &&& a.view.phase == b.view.phase
    &&& a.view.current_hand == b.view.current_hand
    &&& a.prompt == b.prompt
}

/// Cores that agree on the game go on agreeing, whatever the server says.
pub proof fn same_game_stays_same(a: CoreSight, b: CoreSight, msg: ServerMessage)
    requires
        same_game(a, b),
    ensures
        same_game(machine::after_message(a, msg).0, machine::after_message(b, msg).0),
    decreases msg,
{
    if let ServerMessage::ReplayEvents { hand_id, events } = msg {
        same_game_after_list(a, b, events@, events@.len() as int);
    }
}

proof fn same_game_after_list(a: CoreSight, b: CoreSight, msgs: Seq<ServerMessage>, n: int)
    requires
        same_game(a, b),
    ensures
        same_game(
            machine::after_messages(a, msgs, n).0,
            machine::after_messages(b, msgs, n).0,
        ),
    decreases msgs, n,
{
    if 0 < n <= msgs.len() {
        same_game_after_list(a, b, msgs, n - 1);
        same_game_stays_same(
            machine::after_messages(a, msgs, n - 1).0,
            machine::after_messages(b, msgs, n - 1).0,
            msgs[n - 1],
        );
    }
}

/// The start of a hand wipes out whatever the core believed of an earlier one, so a
/// replay that begins with it rebuilds the hand in full: two cores at the same seat
/// agree on the game from then on.
pub proof fn hand_start_rebuilds(
    a: CoreSight,
    b: CoreSight,
    table_id: TableId,
    hand_id: u64,
    dealer: usize,
    deck_seed: u64,
)
    requires
        a.view.phase == b.view.phase,
        machine::seated_at(a, table_id),
    ensures
        same_game(
            machine::after_table_event(
                a,
                table_id,
                Event::HandStarted { hand_id, dealer, deck_seed },
            ).0,
            machine::after_table_event(
                b,
                table_id,
                Event::HandStarted { hand_id, dealer, deck_seed },
            ).0,
        ),
{
}

// ---------------------------------------------------------------------------
// Coming and going
// ---------------------------------------------------------------------------

/// The handshake that an intent asks for.
pub open spec fn handshake(intent: Intent) -> Option<ClientMessage> {
    match intent {
        Intent::Register { email, username, password, device_label } => Some(
            ClientMessage::Register {
                protocol_version: PROTOCOL_VERSION,
                email,
                username,
                password,
                device_label,
            },
        ),
        Intent::AuthenticatePassword { identifier, password, device_label } => Some(
            ClientMessage::Authenticate {
                protocol_version: PROTOCOL_VERSION,
                mode: AuthMode::Password { identifier, password },
                device_label,
            },
        ),
        Intent::AuthenticateSession { key, device_label } => Some(
            ClientMessage::Authenticate {
                protocol_version: PROTOCOL_VERSION,
                mode: AuthMode::Session { key },
                device_label,
            },
        ),
        _ => None,
    }
}

proof fn sent_one(requests: Seq<Request>)
    requires
        requests.len() == 1,
    ensures
        sent(requests) == (match requests[0] {
            Request::Send(msg) => seq![msg],
            _ => Seq::<ClientMessage>::empty(),
        }),
{
    assert(sent(requests.drop_last()) == Seq::<ClientMessage>::empty());
    assert(sent(requests) =~= match requests[0] {
        Request::Send(msg) => seq![msg],
        _ => Seq::<ClientMessage>::empty(),
    });
}

proof fn sent_two(requests: Seq<Request>)
    requires
        requests.len() == 2,
    ensures
        sent(requests) == sent(seq![requests[0]]) + sent(seq![requests[1]]),
{
    sent_one(seq![requests[0]]);
    sent_one(seq![requests[1]]);
    assert(requests.drop_last() =~= seq![requests[0]]);
    assert(sent(requests) =~= sent(seq![requests[0]]) + sent(seq![requests[1]]));
}

/// A handshake goes out exactly once: at once where the connection is open, and otherwise
/// when it opens. From then on the core waits for the server's answer.
pub proof fn handshakes_go_out_once(c: CoreSight, intent: Intent)
    requires
        handshake(intent) is Some,
    ensures
        ({
            let (c1, r1) = machine::after_intent(c, intent);
            let (c2, r2) = machine::after_intent(c1, Intent::ConnectionOpened);
            let (c3, r3) = machine::after_intent(c2, Intent::ConnectionOpened);
            &&& c.connection_open ==> sent(r1) == seq![handshake(intent)->0] && c1.view.phase
                == Phase::Authenticating
            &&& !c.connection_open ==> {
                &&& sent(r1) == Seq::<ClientMessage>::empty()
                &&& c1.view == c.view
                &&& sent(r2) == seq![handshake(intent)->0]
                &&& c2.view.phase == Phase::Authenticating
                &&& c2.connection_open
                &&& sent(r3) == Seq::<ClientMessage>::empty()
            }
            &&& intent matches Intent::AuthenticateSession { key, .. } ==> c1.session_key == Some(
                key,
            )
        }),
{
    let (c1, r1) = machine::after_intent(c, intent);
    let (c2, r2) = machine::after_intent(c1, Intent::ConnectionOpened);
    let (c3, r3) = machine::after_intent(c2, Intent::ConnectionOpened);
    sent_one(r1);
    if !c.connection_open {
        sent_two(r2);
        sent_one(seq![r2[0]]);
        sent_one(seq![r2[1]]);
        sent_one(r3);
        assert(sent(r2) =~= seq![handshake(intent)->0]);
    }
}

/// A connection that opens while no handshake waits sends nothing.
pub proof fn silent_openings(c: CoreSight)
    requires
        c.pending is None,
    ensures
        sent(machine::after_intent(c, Intent::ConnectionOpened).1)
            == Seq::<ClientMessage>::empty(),
        machine::after_intent(c, Intent::ConnectionOpened).0.connection_open,
        machine::after_intent(c, Intent::ConnectionOpened).0.view == c.view,
{
    sent_one(machine::after_intent(c, Intent::ConnectionOpened).1);
}

/// Requests to the lobby go out as asked and change nothing here.
pub proof fn lobby_requests_go_out(c: CoreSight, table_id: TableId, buy_in: u32)
    ensures
        ({
            let list = machine::after_intent(c, Intent::ListTables);
            let join = machine::after_intent(c, Intent::JoinTable { table_id, buy_in });
            let leave = machine::after_intent(c, Intent::LeaveTable { table_id });
            let beat = machine::after_intent(c, Intent::Heartbeat);
            &&& list.0 == c && sent(list.1) == seq![ClientMessage::ListTables]
            &&& join.0 == c && sent(join.1) == seq![ClientMessage::JoinTable { table_id, buy_in }]
            &&& leave.0 == c && sent(leave.1) == seq![ClientMessage::LeaveTable { table_id }]
            &&& beat.0 == c && sent(beat.1) == seq![ClientMessage::Heartbeat]
        }),
{
    sent_one(machine::after_intent(c, Intent::ListTables).1);
    sent_one(machine::after_intent(c, Intent::JoinTable { table_id, buy_in }).1);
    sent_one(machine::after_intent(c, Intent::LeaveTable { table_id }).1);
    sent_one(machine::after_intent(c, Intent::Heartbeat).1);
}

/// The core has no connection, no hand and nothing waiting, and remembers the session key
/// alone.
pub open spec fn starts_over(before: CoreSight, after: CoreSight, phase: Phase) -> bool {
    &&& after.view.phase == phase
    &&& !after.connection_open
    &&& after.pending is None
    &&& after.prompt is None
    &&& after.session_key == before.session_key
    &&& after.view.current_hand is None
    &&& after.view.button is None
    &&& after.view.player_id is None
    &&& after.view.username is None
    &&& after.view.seats.len() == 0
    &&& after.view.tables.len() == 0
}

/// Dialling asks for a connection to the address, and leaving says so and closes it. A lost
/// connection, or a goodbye of the server, ends with its reason. After each of the last
/// three the core starts over.
pub proof fn connections_come_and_go(c: CoreSight, addr: String, reason: String)
    ensures
        ({
            let dial = machine::after_intent(c, Intent::Connect { addr });
            let quit = machine::after_intent(c, Intent::Disconnect);
            let lost = machine::after_intent(c, Intent::ConnectionLost { reason });
            let bye = machine::after_message(c, ServerMessage::Goodbye { reason });
            &&& dial.0.view.phase == Phase::Connecting
            &&& dial.1.contains(Request::OpenConnection { addr })
            &&& starts_over(c, quit.0, Phase::Disconnected)
            &&& sent(quit.1) == seq![ClientMessage::Disconnect]
            &&& quit.1.contains(Request::CloseConnection)
            &&& starts_over(c, lost.0, Phase::Ended { reason })
            &&& sent(lost.1) == Seq::<ClientMessage>::empty()
            &&& starts_over(c, bye.0, Phase::Ended { reason })
            &&& bye.1.contains(Request::CloseConnection)
        }),
{
    let dial = machine::after_intent(c, Intent::Connect { addr });
    let quit = machine::after_intent(c, Intent::Disconnect);
    let lost = machine::after_intent(c, Intent::ConnectionLost { reason });
    let bye = machine::after_message(c, ServerMessage::Goodbye { reason });
    assert(dial.1[0] == Request::OpenConnection { addr });
    assert(quit.1[1] == Request::CloseConnection);
    assert(bye.1[0] == Request::CloseConnection);
    sent_one(lost.1);
    sent_two(quit.1);
    sent_one(seq![quit.1[0]]);
    sent_one(seq![quit.1[1]]);
    assert(sent(quit.1) =~= seq![ClientMessage::Disconnect]);
}

/// A welcome leads to the lobby: who we are is shown, and the session key is kept and
/// saved. A rejection ends the session with its reason and closes the connection.
pub proof fn handshakes_are_answered(
    c: CoreSight,
    protocol_version: u32,
    player_id: u64,
    username: String,
    session_key: String,
    stats: LifetimeStats,
    reason: String,
)
    ensures
        ({
            let (c1, r1) = machine::after_message(
                c,
                ServerMessage::Welcome {
                    protocol_version,
                    player_id,
                    username,
                    session_key,
                    stats,
                },
            );
            &&& c1.view.phase == Phase::Lobby
            &&& c1.view.player_id == Some(player_id)
            &&& c1.view.username == Some(username)
            &&& c1.view.lifetime_stats == Some(stats)
            &&& c1.session_key == Some(session_key)
            &&& c1.view.current_hand is None
            &&& r1.contains(Request::PersistSessionKey(Some(session_key)))
        }),
        ({
            let (c1, r1) = machine::after_message(
                c,
                ServerMessage::Rejected { protocol_version, reason },
            );
            &&& c1.view.phase == (Phase::Ended { reason })
            &&& !c1.connection_open
            &&& c1.view.current_hand is None
            &&& r1.contains(Request::CloseConnection)
        }),
{
    let r = machine::after_message(c, ServerMessage::Rejected { protocol_version, reason }).1;
    assert(r[0] == Request::CloseConnection);
    let r1 = machine::after_message(
        c,
        ServerMessage::Welcome { protocol_version, player_id, username, session_key, stats },
    ).1;
    assert(r1[0] == Request::PersistSessionKey(Some(session_key)));
}

/// Sitting down shows the seats and no hand; getting up leads back to the lobby. The state
/// of our table and the list of tables are shown as told.
pub proof fn tables_are_shown(
    c: CoreSight,
    table_id: TableId,
    seat: usize,
    seats: Vec<SeatInfo>,
    button: usize,
    tables: Vec<TableInfo>,
)
    ensures
        ({
            let joined = machine::after_message(
                c,
                ServerMessage::JoinedTable { table_id, seat, seats },
            ).0;
            let left = machine::after_message(c, ServerMessage::LeftTable { table_id }).0;
            let state = machine::after_message(
                c,
                ServerMessage::TableState { table_id, seats, button },
            ).0;
            let listed = machine::after_message(c, ServerMessage::TableList { tables }).0;
            &&& joined.view.phase == (Phase::Seated { table_id, seat })
            &&& joined.view.seats == seats@
            &&& joined.view.current_hand is None && joined.prompt is None
            &&& left.view.phase == Phase::Lobby
            &&& left.view.seats.len() == 0 && left.view.button is None
            &&& left.view.current_hand is None && left.prompt is None
            &&& machine::seated_at(c, table_id) ==> {
                &&& state.view.seats == seats@
                &&& state.view.button == Some(button)
                &&& state.view.phase == c.view.phase
                &&& state.view.current_hand == c.view.current_hand
            }
            &&& !machine::seated_at(c, table_id) ==> state == c
            &&& listed.view.tables == tables@
            &&& listed.view.phase == c.view.phase
            &&& listed.view.current_hand == c.view.current_hand
        }),
{
}

/// Two sights of a hand that differ in what is on offer alone.
pub open spec fn same_table(a: HandSight, b: HandSight) -> bool {
    &&& a.hand_id == b.hand_id
    &&& a.dealer == b.dealer
    &&& a.street == b.street
    &&& a.hole_cards == b.hole_cards
    &&& a.board == b.board
    &&& a.pot_total == b.pot_total
    &&& a.folded_seats == b.folded_seats
    &&& a.all_in_seats == b.all_in_seats
    &&& a.bets == b.bets
}

/// A prompt to us shows what is on offer and until when, and nothing else of the hand
/// changes; sending an answer takes the offer away, and nothing else.
pub proof fn prompts_touch_the_offer_alone(
    c: CoreSight,
    hand_id: u64,
    legal: LegalActions,
    deadline_ms: u32,
    action: Action,
)
    requires
        c.view.phase is Seated,
        c.view.current_hand is Some,
    ensures
        ({
            let table_id = c.view.phase->table_id;
            let seat = c.view.phase->seat;
            let msg = ServerMessage::Prompt { table_id, hand_id, seat, legal, deadline_ms };
            let c1 = machine::after_message(c, msg).0;
            let c2 = machine::after_intent(c1, Intent::SubmitAction { action }).0;
            let h = c.view.current_hand->0;
            &&& c1.view.current_hand is Some && c2.view.current_hand is Some
            &&& {
                let (h1, h2) = (c1.view.current_hand->0, c2.view.current_hand->0);
                &&& h1.awaiting_action && h1.legal_actions == Some(legal)
                &&& h1.action_deadline_ms == Some(deadline_ms)
                &&& legal.allows(action) ==> !h2.awaiting_action && h2.legal_actions is None
                    && h2.action_deadline_ms is None
                &&& same_table(h, h1)
                &&& same_table(h, h2)
            }
            &&& c1.view.seats == c.view.seats && c1.view.button == c.view.button
            &&& c1.view.last_action_rejection is None
        }),
{
}

} // verus!
