//! The network side of live mode: what is sent first, and what each turn of the
//! connection leads to.

use vstd::prelude::*;

use crate::net::protocol::{AuthMode, ClientMessage, ServerMessage, PROTOCOL_VERSION};

verus! {

/// Events delivered from the network worker to the window.
#[derive(Debug)]
pub enum LiveEvent {
    /// The connection is being made.
    Connecting,
    /// The server sent a message.
    Server(ServerMessage),
    /// Connection closed cleanly or with an error string.
    Disconnected(String),
}

/// How a player logs in.
#[derive(Debug)]
pub enum LoginRequest {
    /// Create an account.
    Register { email: String, username: String, password: String },
    /// Log in to an existing account by username or email.
    Password { identifier: String, password: String },
}

/// The first message over a new connection.
pub open spec fn greeting(login: LoginRequest) -> ClientMessage {
    match login {
        LoginRequest::Register { email, username, password } => ClientMessage::Register {
            protocol_version: PROTOCOL_VERSION,
            email,
            username,
            password,
            device_label: None,
        },
        LoginRequest::Password { identifier, password } => ClientMessage::Authenticate {
            protocol_version: PROTOCOL_VERSION,
            mode: AuthMode::Password { identifier, password },
            device_label: None,
        },
    }
}

/// The first message over a new connection.
pub fn first_message(login: LoginRequest) -> (msg: ClientMessage)
    ensures
        msg == greeting(login),
{
    match login {
        LoginRequest::Register { email, username, password } => ClientMessage::Register {
            protocol_version: PROTOCOL_VERSION,
            email,
            username,
            password,
            device_label: None,
        },
        LoginRequest::Password { identifier, password } => ClientMessage::Authenticate {
            protocol_version: PROTOCOL_VERSION,
            mode: AuthMode::Password { identifier, password },
            device_label: None,
        },
    }
}

/// What the network worker can meet.
#[derive(Debug)]
pub enum NetEvent {
    /// The connection to `addr` was made, or not.
    Dialed { addr: String, result: Result<(), String> },
    /// The connection was told not to delay small messages, or refused.
    Hurried(Result<(), String>),
    /// The first message was sent, or not.
    Greeted(Result<(), String>),
    /// A message arrived, or the connection failed.
    Inbound(Result<ServerMessage, String>),
    /// The message was handed to the window; `alive` unless the window is gone. It
    /// said goodbye or not.
    Delivered { goodbye: bool, alive: bool },
    /// The window wants a message sent; `None` once it is gone.
    Outbound(Option<ClientMessage>),
    /// The message was sent, or not. It asked to disconnect or not.
    Sent { disconnect: bool, result: Result<(), String> },
    /// The wait for the server's last words is over.
    Drained,
}

/// What the network worker does next.
#[derive(Debug)]
pub enum NetAction {
    /// Go on.
    Go,
    /// Hand the event to the window and go on.
    Tell(LiveEvent),
    /// Hand the server's message to the window, and report back with
    /// [`NetEvent::Delivered`].
    Deliver { event: LiveEvent, goodbye: bool },
    /// Send the message, and report back with [`NetEvent::Sent`].
    Send { msg: ClientMessage, disconnect: bool },
    /// Give the server a moment for its last words.
    Drain,
    /// Hand the event to the window and stop.
    Finish(LiveEvent),
    /// Close the sending side and stop.
    ShutDown,
}

/// The worker stops, and the window is told that the connection is gone for `reason`.
pub open spec fn gone(action: NetAction, reason: Seq<char>) -> bool {
    action matches NetAction::Finish(LiveEvent::Disconnected(why)) && why@ == reason
}

/// The worker's answer to `event` is `action`.
pub open spec fn turns(event: NetEvent, action: NetAction) -> bool {
    match event {
        NetEvent::Dialed { addr, result } => match result {
            Ok(_) => action == NetAction::Go,
            Err(e) => gone(action, "connect "@ + addr@ + ": "@ + e@),
        },
        NetEvent::Hurried(result) => match result {
            Ok(_) => action == NetAction::Go,
            Err(e) => action matches NetAction::Tell(
                LiveEvent::Server(ServerMessage::ActionRejected { reason }),
            ) && reason@ == "set_nodelay: "@ + e@,
        },
        NetEvent::Greeted(result) => match result {
            Ok(_) => action == NetAction::Go,
            Err(e) => gone(action, "send Hello: "@ + e@),
        },
        NetEvent::Inbound(result) => match result {
            Ok(msg) => action == (NetAction::Deliver {
                event: LiveEvent::Server(msg),
                goodbye: msg is Goodbye,
            }),
            Err(e) => gone(action, e@),
        },
        NetEvent::Delivered { goodbye, alive } => if !alive {
            action == NetAction::ShutDown
        } else if goodbye {
            gone(action, "server closed connection"@)
        } else {
            action == NetAction::Go
        },
        NetEvent::Outbound(outbound) => match outbound {
            Some(msg) => action == (NetAction::Send { msg, disconnect: msg is Disconnect }),
            None => action == NetAction::ShutDown,
        },
        NetEvent::Sent { disconnect, result } => match result {
            Err(e) => gone(action, "send: "@ + e@),
            Ok(_) => if disconnect {
                action == NetAction::Drain
            } else {
                action == NetAction::Go
            },
        },
        NetEvent::Drained => gone(action, "disconnected"@),
    }
}

fn two(a: &str, b: &str) -> (s: String)
    ensures
        s@ == a@ + b@,
{
    let mut s = a.to_owned();
    s.append(b);
    s
}

fn finish(reason: String) -> (action: NetAction)
    ensures
        gone(action, reason@),
{
    NetAction::Finish(LiveEvent::Disconnected(reason))
}

/// Decides what the network worker does about `event`. Failures end the connection
/// and are reported to the window with their stage; only a refusal to hurry is
/// shown and otherwise ignored.
pub fn turn(event: NetEvent) -> (action: NetAction)
    ensures
        turns(event, action),
{
    match event {
        NetEvent::Dialed { addr, result } => match result {
            Ok(_) => NetAction::Go,
            Err(e) => {
                let mut reason = two("connect ", addr.as_str());
                reason.append(": ");
                reason.append(e.as_str());
                assert(reason@ =~= "connect "@ + addr@ + ": "@ + e@);
                finish(reason)
            },
        },
        NetEvent::Hurried(result) => match result {
            Ok(_) => NetAction::Go,
            Err(e) => NetAction::Tell(
                LiveEvent::Server(
                    ServerMessage::ActionRejected { reason: two("set_nodelay: ", e.as_str()) },
                ),
            ),
        },
        NetEvent::Greeted(result) => match result {
            Ok(_) => NetAction::Go,
            Err(e) => finish(two("send Hello: ", e.as_str())),
        },
        NetEvent::Inbound(result) => match result {
            Ok(msg) => {
                let goodbye = match &msg {
                    ServerMessage::Goodbye { .. } => true,
                    _ => false,
                };
                NetAction::Deliver { event: LiveEvent::Server(msg), goodbye }
            },
            Err(e) => finish(e),
        },
        NetEvent::Delivered { goodbye, alive } => if !alive {
            NetAction::ShutDown
        } else if goodbye {
            finish("server closed connection".to_owned())
        } else {
            NetAction::Go
        },
        NetEvent::Outbound(outbound) => match outbound {
            Some(msg) => {
                let disconnect = match &msg {
                    ClientMessage::Disconnect => true,
                    _ => false,
                };
                NetAction::Send { msg, disconnect }
            },
            None => NetAction::ShutDown,
        },
        NetEvent::Sent { disconnect, result } => match result {
            Err(e) => finish(two("send: ", e.as_str())),
            Ok(_) => if disconnect {
                NetAction::Drain
            } else {
                NetAction::Go
            },
        },
        NetEvent::Drained => finish("disconnected".to_owned()),
    }
}

/// A new player registers, a known one logs in; either way the server is told which
/// protocol is spoken and exactly what the player gave.
pub proof fn greetings_carry_the_login(login: LoginRequest)
    ensures
        login matches LoginRequest::Register { email, username, password } ==> (greeting(login)
            matches ClientMessage::Register {
            protocol_version: v,
            email: e,
            username: u,
            password: p,
            device_label: d,
        } && v == PROTOCOL_VERSION && e == email && u == username && p == password && d is None),
        login matches LoginRequest::Password { identifier, password } ==> (greeting(login)
            matches ClientMessage::Authenticate {
            protocol_version: v,
            mode: AuthMode::Password { identifier: i, password: p },
            device_label: d,
        } && v == PROTOCOL_VERSION && i == identifier && p == password && d is None),
{
}

/// What the window wants sent is sent as it is, and what the server says is handed to the
/// window as it is. The worker stops exactly if something failed, the server or the player
/// said goodbye, or the window is gone; the window hears of it unless it is gone.
pub proof fn worker_passes_messages(event: NetEvent, action: NetAction)
    requires
        turns(event, action),
    ensures
        forall|msg: ClientMessage, disconnect: bool|
            action == (NetAction::Send { msg, disconnect }) <==> event == NetEvent::Outbound(
                Some(msg),
            ) && disconnect == (msg is Disconnect),
        forall|msg: ServerMessage, goodbye: bool|
            action == (NetAction::Deliver { event: LiveEvent::Server(msg), goodbye }) <==> event
                == NetEvent::Inbound(Ok(msg)) && goodbye == (msg is Goodbye),
        action is ShutDown <==> event == NetEvent::Outbound(None) || (event
            matches NetEvent::Delivered { alive, .. } && !alive),
        action is Drain <==> event matches NetEvent::Sent { disconnect: true, result: Ok(_) },
        action is Finish <==> {
            ||| event matches NetEvent::Dialed { result: Err(_), .. }
            ||| event matches NetEvent::Greeted(Err(_))
            ||| event matches NetEvent::Inbound(Err(_))
            ||| event matches NetEvent::Sent { result: Err(_), .. }
            ||| event == (NetEvent::Delivered { goodbye: true, alive: true })
            ||| event is Drained
        },
        action is Finish ==> action matches NetAction::Finish(LiveEvent::Disconnected(_)),
        action is Tell <==> event matches NetEvent::Hurried(Err(_)),
{
}

} // verus!
