//! Side-effects the core wants the host to perform, in order.

use vstd::prelude::*;

use crate::net::protocol::ClientMessage;

verus! {

/// What the core asks the host to do.
#[derive(Debug)]
pub enum Effect {
    /// Open a connection to `addr`, then pump it: every inbound message becomes a
    /// `handle_inbound` call.
    OpenConnection { addr: String },
    /// Close the connection. Idempotent.
    CloseConnection,
    /// Serialise and send the message over the open connection.
    Send(ClientMessage),
    /// Persist (or, when `None`, clear) the session key.
    PersistSessionKey(Option<String>),
    /// Schedule a future tick.
    Schedule { kind: ScheduleKind, after_ms: u32 },
    /// Structured log line.
    Log { level: LogLevel, message: String, fields: Vec<(&'static str, String)> },
}

/// Tick categories.
#[derive(Debug, Clone, Copy, PartialEq, Eq, Structural)]
pub enum ScheduleKind {
    Heartbeat,
    PromptDeadline,
}

#[derive(Debug, Clone, Copy, PartialEq, Eq, Structural)]
pub enum LogLevel {
    Trace,
    Debug,
    Info,
    Warn,
    Error,
}

/// An effect, with the texts of a log line as sequences of characters.
#[verifier::ext_equal]
pub enum Request {
    OpenConnection { addr: String },
    CloseConnection,
    Send(ClientMessage),
    PersistSessionKey(Option<String>),
    Schedule { kind: ScheduleKind, after_ms: u32 },
    Log { level: LogLevel, message: Seq<char>, fields: Seq<(Seq<char>, Seq<char>)> },
}

/// The fields of a log line as sequences of characters.
pub open spec fn field_texts(fields: Seq<(&'static str, String)>) -> Seq<(Seq<char>, Seq<char>)> {
    Seq::new(fields.len(), |i: int| (fields[i].0@, fields[i].1@))
}

impl View for Effect {
    type V = Request;

    open spec fn view(&self) -> Request {
        match self {
            Effect::OpenConnection { addr } => Request::OpenConnection { addr: *addr },
            Effect::CloseConnection => Request::CloseConnection,
            Effect::Send(msg) => Request::Send(*msg),
            Effect::PersistSessionKey(key) => Request::PersistSessionKey(*key),
            Effect::Schedule { kind, after_ms } => Request::Schedule {
                kind: *kind,
                after_ms: *after_ms,
            },
            Effect::Log { level, message, fields } => Request::Log {
                level: *level,
                message: message@,
                fields: field_texts(fields@),
            },
        }
    }
}

/// The effects one by one.
pub open spec fn requests(effects: Seq<Effect>) -> Seq<Request> {
    Seq::new(effects.len(), |i: int| effects[i]@)
}

/// A log line without fields.
pub(crate) fn log(level: LogLevel, msg: &str) -> (e: Effect)
    ensures
        e@ == (Request::Log { level, message: msg@, fields: Seq::empty() }),
{
    let e = Effect::Log { level, message: msg.to_owned(), fields: Vec::new() };
    assert(e@ =~= Request::Log { level, message: msg@, fields: Seq::empty() });
    e
}

/// A log line with one field.
pub(crate) fn log1(level: LogLevel, msg: &str, name: &'static str, value: String) -> (e: Effect)
    ensures
        e@ == (Request::Log { level, message: msg@, fields: seq![(name@, value@)] }),
{
    let mut fields: Vec<(&'static str, String)> = Vec::new();
    fields.push((name, value));
    let e = Effect::Log { level, message: msg.to_owned(), fields };
    assert(e@ =~= Request::Log { level, message: msg@, fields: seq![(name@, value@)] });
    e
}

/// A log line with two fields.
pub(crate) fn log2(
    level: LogLevel,
    msg: &str,
    name1: &'static str,
    value1: String,
    name2: &'static str,
    value2: String,
) -> (e: Effect)
    ensures
        e@ == (Request::Log {
            level,
            message: msg@,
            fields: seq![(name1@, value1@), (name2@, value2@)],
        }),
{
    let mut fields: Vec<(&'static str, String)> = Vec::new();
    fields.push((name1, value1));
    fields.push((name2, value2));
    let e = Effect::Log { level, message: msg.to_owned(), fields };
    assert(e@ =~= Request::Log {
        level,
        message: msg@,
        fields: seq![(name1@, value1@), (name2@, value2@)],
    });
    e
}

/// A log line with three fields.
pub(crate) fn log3(
    level: LogLevel,
    msg: &str,
    name1: &'static str,
    value1: String,
    name2: &'static str,
    value2: String,
    name3: &'static str,
    value3: String,
) -> (e: Effect)
    ensures
        e@ == (Request::Log {
            level,
            message: msg@,
            fields: seq![(name1@, value1@), (name2@, value2@), (name3@, value3@)],
        }),
{
    let mut fields: Vec<(&'static str, String)> = Vec::new();
    fields.push((name1, value1));
    fields.push((name2, value2));
    fields.push((name3, value3));
    let e = Effect::Log { level, message: msg.to_owned(), fields };
    assert(e@ =~= Request::Log {
        level,
        message: msg@,
        fields: seq![(name1@, value1@), (name2@, value2@), (name3@, value3@)],
    });
    e
}

} // verus!
