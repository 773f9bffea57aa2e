use vstd::prelude::*;

use crate::net::protocol::ServerMessage;

verus! {

/// Events a transport reports back to its host.
#[derive(Debug)]
pub enum TransportIn {
    /// Fires exactly once per successful open, immediately after the socket is up.
    Connected,
    /// A decoded inbound message. One per frame.
    Message(ServerMessage),
    /// Terminal: nothing follows.
    Lost { reason: String },
}

/// Sending failed because the transport worker has exited. Drop the handle and open a
/// fresh one to recover.
#[derive(Debug, Clone, Copy, PartialEq, Eq, Structural)]
pub struct Closed;

impl Closed {
    /// The error in words.
    pub fn to_text(&self) -> (s: String)
        ensures
            s@ == "transport closed"@,
    {
        "transport closed".to_owned()
    }
}

/// Errors raised before there is a live socket. What the system said is kept as
/// text.
#[derive(Debug)]
pub enum NativeTransportError {
    Connect { addr: String, source: String },
    SetNoDelay(String),
}

impl NativeTransportError {
    /// The error in words.
    pub open spec fn text(self) -> Seq<char> {
        match self {
            NativeTransportError::Connect { addr, source } => "connect "@ + addr@ + ": "@ + source@,
            NativeTransportError::SetNoDelay(why) => "set_nodelay: "@ + why@,
        }
    }

    /// The error in words.
    pub fn to_text(&self) -> (s: String)
        ensures
            s@ == self.text(),
    {
        let mut s = String::new();
        match self {
            NativeTransportError::Connect { addr, source } => {
                s.append("connect ");
                s.append(addr.as_str());
                s.append(": ");
                s.append(source.as_str());
            },
            NativeTransportError::SetNoDelay(why) => {
                s.append("set_nodelay: ");
                s.append(why.as_str());
            },
        }
        assert(s@ =~= self.text());
        s
    }
}

/// TCP transport factory. Has no settings so far.
#[derive(Debug, Clone, Copy, PartialEq, Eq, Structural)]
pub struct NativeTransport;

impl NativeTransport {
    pub fn new() -> (t: NativeTransport)
        ensures
            t == NativeTransport,
    {
        NativeTransport
    }
}

impl Default for NativeTransport {
    fn default() -> (t: NativeTransport)
        ensures
            t == NativeTransport,
    {
        NativeTransport::new()
    }
}

/// Errors raised when an in-memory connection is opened.
#[derive(Debug, Clone, Copy, PartialEq, Eq, Structural)]
pub enum InMemoryTransportError {
    /// Nobody listens for new connections any more.
    Dropped,
}

impl InMemoryTransportError {
    /// The error in words.
    pub fn to_text(&self) -> (s: String)
        ensures
            s@ == "paired InMemoryConnections was dropped; no listener"@,
    {
        "paired InMemoryConnections was dropped; no listener".to_owned()
    }
}

/// The client has already dropped its end of an in-memory connection.
#[derive(Debug, Clone, Copy, PartialEq, Eq, Structural)]
pub struct Disconnected;

impl Disconnected {
    /// The error in words.
    pub fn to_text(&self) -> (s: String)
        ensures
            s@ == "client handle already dropped"@,
    {
        "client handle already dropped".to_owned()
    }
}

} // verus!
