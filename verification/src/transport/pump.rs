use vstd::prelude::*;

use super::link::TransportIn;
use crate::net::protocol::{ClientMessage, ServerMessage};

verus! {

/// What went wrong on a socket, and what the failing part said.
#[derive(Debug)]
pub enum PumpFault {
    Encode(String),
    Write(String),
    Flush(String),
    /// The peer closed the connection between two frames.
    Eof,
    Read(String),
    Frame(String),
    ReadPayload(String),
    Decode(String),
}

impl PumpFault {
    /// The reason that the host is told.
    pub open spec fn text(self) -> Seq<char> {
        match self {
            PumpFault::Encode(why) => "encode: "@ + why@,
            PumpFault::Write(why) => "write: "@ + why@,
            PumpFault::Flush(why) => "flush: "@ + why@,
            PumpFault::Eof => "server closed connection"@,
            PumpFault::Read(why) => "read: "@ + why@,
            PumpFault::Frame(why) => "frame: "@ + why@,
            PumpFault::ReadPayload(why) => "read payload: "@ + why@,
            PumpFault::Decode(why) => "decode: "@ + why@,
        }
    }

    /// The reason that the host is told.
    pub fn to_text(&self) -> (s: String)
        ensures
            s@ == self.text(),
    {
        let mut s = String::new();
        match self {
            PumpFault::Encode(why) => {
                s.append("encode: ");
                s.append(why.as_str());
            },
            PumpFault::Write(why) => {
                s.append("write: ");
                s.append(why.as_str());
            },
            PumpFault::Flush(why) => {
                s.append("flush: ");
                s.append(why.as_str());
            },
            PumpFault::Eof => {
                s.append("server closed connection");
            },
            PumpFault::Read(why) => {
                s.append("read: ");
                s.append(why.as_str());
            },
            PumpFault::Frame(why) => {
                s.append("frame: ");
                s.append(why.as_str());
            },
            PumpFault::ReadPayload(why) => {
                s.append("read payload: ");
                s.append(why.as_str());
            },
            PumpFault::Decode(why) => {
                s.append("decode: ");
                s.append(why.as_str());
            },
        }
        assert(s@ =~= self.text());
        s
    }
}

/// What a connection's pump can meet.
#[derive(Debug)]
pub enum PumpEvent {
    /// The host wants a message sent; `None` once it has dropped its handle.
    Outbound(Option<ClientMessage>),
    /// The message was sent, or not.
    Sent(Result<(), PumpFault>),
    /// A message arrived, or the connection failed.
    Inbound(Result<ServerMessage, PumpFault>),
    /// The message was handed to the host; `false` if the host is gone.
    Delivered(bool),
}

/// What a connection's pump does next.
#[derive(Debug)]
pub enum PumpAction {
    /// Send the message.
    Send(ClientMessage),
    /// Hand the event to the host and go on.
    Deliver(TransportIn),
    /// Wait for the next event.
    Wait,
    /// Hand the event to the host and stop.
    Finish(TransportIn),
    /// Close the sending side and stop.
    ShutDown,
}

/// A failed connection ends the pump, and the host is told why.
pub open spec fn lost(action: PumpAction, fault: PumpFault) -> bool {
    action matches PumpAction::Finish(TransportIn::Lost { reason }) && reason@ == fault.text()
}

/// The pump's answer to `event` is `action`.
pub open spec fn pumps(event: PumpEvent, action: PumpAction) -> bool {
    match event {
        PumpEvent::Outbound(Some(msg)) => action == PumpAction::Send(msg),
        PumpEvent::Outbound(None) => action == PumpAction::ShutDown,
        PumpEvent::Sent(Ok(_)) => action == PumpAction::Wait,
        PumpEvent::Sent(Err(fault)) => lost(action, fault),
        PumpEvent::Inbound(Ok(msg)) => action == PumpAction::Deliver(TransportIn::Message(msg)),
        PumpEvent::Inbound(Err(fault)) => lost(action, fault),
        PumpEvent::Delivered(true) => action == PumpAction::Wait,
        PumpEvent::Delivered(false) => action == PumpAction::ShutDown,
    }
}

/// Decides what a connection's pump does about `event`. A connection that fails is
/// reported to the host as lost; a host that is gone shuts the connection down.
pub fn pump(event: PumpEvent) -> (action: PumpAction)
    ensures
        pumps(event, action),
{
    match event {
        PumpEvent::Outbound(outbound) => match outbound {
            Some(msg) => PumpAction::Send(msg),
            None => PumpAction::ShutDown,
        },
        PumpEvent::Sent(sent) => match sent {
            Ok(_) => PumpAction::Wait,
            Err(fault) => PumpAction::Finish(TransportIn::Lost { reason: fault.to_text() }),
        },
        PumpEvent::Inbound(inbound) => match inbound {
            Ok(msg) => PumpAction::Deliver(TransportIn::Message(msg)),
            Err(fault) => PumpAction::Finish(TransportIn::Lost { reason: fault.to_text() }),
        },
        PumpEvent::Delivered(alive) => if alive {
            PumpAction::Wait
        } else {
            PumpAction::ShutDown
        },
    }
}

/// Whatever happens to a connection, it either goes on, or the host is told that it
/// was lost, or the host itself is gone.
pub proof fn no_silent_loss(event: PumpEvent, action: PumpAction)
    requires
        pumps(event, action),
    ensures
        action is Finish ==> action matches PumpAction::Finish(TransportIn::Lost { .. }),
        action is ShutDown ==> event == PumpEvent::Outbound(None) || event
            == PumpEvent::Delivered(false),
{
}

/// Messages pass a connection unchanged, each in its direction, and nothing else is sent or
/// handed over while it lives. Every failure ends it.
pub proof fn messages_pass_unchanged(event: PumpEvent, action: PumpAction)
    requires
        pumps(event, action),
    ensures
        forall|msg: ClientMessage|
            action == PumpAction::Send(msg) <==> event == PumpEvent::Outbound(Some(msg)),
        forall|msg: ServerMessage|
            action == PumpAction::Deliver(TransportIn::Message(msg)) <==> event
                == PumpEvent::Inbound(Ok(msg)),
        action is Finish <==> event matches PumpEvent::Sent(Err(_)) || event
            matches PumpEvent::Inbound(Err(_)),
        action is ShutDown <==> event == PumpEvent::Outbound(None) || event
            == PumpEvent::Delivered(false),
{
}

} // verus!
