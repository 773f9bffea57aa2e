//! Routes the core's effects to the host, one errand at a time.

use vstd::prelude::*;

use crate::client::effect;
use crate::client::effect::Request;
use crate::client::machine;
use crate::client::machine::CoreSight;
use crate::client::{ClientCore, ClientView, Effect, Intent, LogLevel};
use crate::net::protocol::{ClientMessage, ServerMessage};

verus! {

/// One structured log line.
#[derive(Debug)]
pub struct LogEntry {
    pub level: LogLevel,
    pub message: String,
    pub fields: Vec<(&'static str, String)>,
}

/// A log line, with its texts as sequences of characters.
#[verifier::ext_equal]
pub struct LogSight {
    pub level: LogLevel,
    pub message: Seq<char>,
    pub fields: Seq<(Seq<char>, Seq<char>)>,
}

impl View for LogEntry {
    type V = LogSight;

    open spec fn view(&self) -> LogSight {
        LogSight {
            level: self.level,
            message: self.message@,
            fields: effect::field_texts(self.fields@),
        }
    }
}

/// The log lines one by one.
pub open spec fn log_lines(entries: Seq<LogEntry>) -> Seq<LogSight> {
    Seq::new(entries.len(), |i: int| entries[i]@)
}

/// What the host is to do next.
#[derive(Debug)]
pub enum Errand {
    /// Discard any previous connection and open a new one to `addr`; report how it
    /// went with [`Runtime::opened`] or [`Runtime::open_failed`].
    Open { addr: String },
    /// Drop the connection.
    Close,
    /// Send a message over the connection.
    Send(ClientMessage),
    /// Take note that a message is dropped: it has no connection to go over.
    Dropped(ClientMessage),
    /// Keep the session key.
    Save(String),
    /// Forget the session key.
    Clear,
    /// Nothing is left to do: publish the view and wait for the next event.
    Rest,
}

/// What the runtime keeps.
#[verifier::ext_equal]
pub struct RuntimeSight {
    pub core: CoreSight,
    /// The host holds a connection.
    pub open: bool,
    /// Effects not yet performed, next one first.
    pub pending: Seq<Request>,
    pub logs: Seq<LogSight>,
}

/// The next errand, and what is left after it. Log lines go to the buffer, and ticks are
/// skipped.
pub open spec fn served(s: RuntimeSight) -> (RuntimeSight, Errand)
    decreases s.pending.len(),
{
    if s.pending.len() == 0 {
        (s, Errand::Rest)
    } else {
        let rest = RuntimeSight { pending: s.pending.skip(1), ..s };
        match s.pending[0] {
            Request::OpenConnection { addr } => (
                RuntimeSight { open: false, ..rest },
                Errand::Open { addr },
            ),
            Request::CloseConnection => (RuntimeSight { open: false, ..rest }, Errand::Close),
            Request::Send(msg) => if s.open {
                (rest, Errand::Send(msg))
            } else {
                (rest, Errand::Dropped(msg))
            },
            Request::PersistSessionKey(Some(key)) => (rest, Errand::Save(key)),
            Request::PersistSessionKey(None) => (rest, Errand::Clear),
            Request::Schedule { .. } => served(rest),
            Request::Log { level, message, fields } => served(
                RuntimeSight { logs: rest.logs.push(LogSight { level, message, fields }), ..rest },
            ),
        }
    }
}

/// After the core has handled `intent`.
pub open spec fn after_host(s: RuntimeSight, intent: Intent) -> RuntimeSight {
    let (core, asked) = machine::after_intent(s.core, intent);
    RuntimeSight { core, pending: s.pending + asked, ..s }
}

/// After the core has handled `msg`.
pub open spec fn after_inbound(s: RuntimeSight, msg: ServerMessage) -> RuntimeSight {
    let (core, asked) = machine::after_message(s.core, msg);
    RuntimeSight { core, pending: s.pending + asked, ..s }
}

/// The request touches no connection and no clock.
pub open spec fn inert(r: Request) -> bool {
    r is PersistSessionKey || r is Log
}

/// After a connection could not be opened, for `reason`: the core is told that the
/// connection is lost, and what it asks for without touching a connection comes
/// before everything else.
pub open spec fn after_open_failed(s: RuntimeSight, reason: String) -> RuntimeSight {
    let (core, asked) = machine::after_intent(s.core, Intent::ConnectionLost { reason });
    RuntimeSight { core, pending: asked.filter(|r: Request| inert(r)) + s.pending, ..s }
}

/// The client core with the effects it still waits for, the log buffer, and whether
/// there is a connection.
pub struct Runtime {
    core: ClientCore,
    open: bool,
    pending: Vec<Effect>,
    logs: Vec<LogEntry>,
}

impl View for Runtime {
    type V = RuntimeSight;

    closed spec fn view(&self) -> RuntimeSight {
        RuntimeSight {
            core: self.core@,
            open: self.open,
            pending: effect::requests(self.pending@),
            logs: log_lines(self.logs@),
        }
    }
}

impl Runtime {
    /// Starts from a session key that was stored earlier, if any. The host still
    /// issues an intent to authenticate with it.
    pub fn new(initial_key: Option<String>) -> (rt: Runtime)
        ensures
            rt@.core.session_key == initial_key,
            rt@.core.view == crate::client::view::ViewSight::empty(),
            !rt@.core.connection_open,
            rt@.core.pending is None,
            rt@.core.prompt is None,
            !rt@.open,
            rt@.pending == Seq::<Request>::empty(),
            rt@.logs == Seq::<LogSight>::empty(),
    {
        let rt = Runtime {
            core: ClientCore::new(initial_key),
            open: false,
            pending: Vec::new(),
            logs: Vec::new(),
        };
        assert(rt@.pending =~= Seq::<Request>::empty());
        assert(rt@.logs =~= Seq::<LogSight>::empty());
        rt
    }

    /// Most recent view.
    pub fn snapshot(&self) -> (v: ClientView)
        ensures
            v@ == self@.core.view,
    {
        self.core.snapshot()
    }

    /// The host holds a connection.
    pub fn is_open(&self) -> (b: bool)
        ensures
            b == self@.open,
    {
        self.open
    }

    /// Hands out the log lines that have piled up.
    pub fn drain_logs(&mut self) -> (logs: Vec<LogEntry>)
        ensures
            log_lines(logs@) == old(self)@.logs,
            final(self)@ == (RuntimeSight { logs: Seq::empty(), ..old(self)@ }),
    {
        let mut logs: Vec<LogEntry> = Vec::new();
        std::mem::swap(&mut logs, &mut self.logs);
        assert(self@ =~= RuntimeSight { logs: Seq::empty(), ..old(self)@ });
        logs
    }

    fn queue(&mut self, effects: Vec<Effect>)
        ensures
            final(self)@ == (RuntimeSight {
                pending: old(self)@.pending + effect::requests(effects@),
                ..old(self)@
            }),
    {
        let mut more = effects;
        self.pending.append(&mut more);
        assert(self@ =~= RuntimeSight {
            pending: old(self)@.pending + effect::requests(effects@),
            ..old(self)@
        });
    }

    /// An intent of the host.
    pub fn intent(&mut self, intent: Intent)
        ensures
            final(self)@ == after_host(old(self)@, intent),
    {
        let effects = self.core.handle_intent(intent);
        self.queue(effects);
    }

    /// The connection is up.
    pub fn connected(&mut self)
        ensures
            final(self)@ == after_host(old(self)@, Intent::ConnectionOpened),
    {
        self.intent(Intent::ConnectionOpened);
    }

    /// A message arrived.
    pub fn message(&mut self, msg: ServerMessage)
        ensures
            final(self)@ == after_inbound(old(self)@, msg),
    {
        let effects = self.core.handle_inbound(msg);
        self.queue(effects);
    }

    /// The connection is lost. The dead connection is dropped before the core hears
    /// of it.
    pub fn lost(&mut self, reason: String)
        ensures
            final(self)@ == after_host(
                RuntimeSight { open: false, ..old(self)@ },
                Intent::ConnectionLost { reason },
            ),
    {
        self.open = false;
        self.intent(Intent::ConnectionLost { reason });
    }

    /// The connection's pump ended without a word.
    pub fn pump_gone(&mut self)
        ensures
            final(self)@ == (RuntimeSight { open: false, ..old(self)@ }),
    {
        self.open = false;
    }

    /// An errand to open a connection has succeeded.
    pub fn opened(&mut self)
        ensures
            final(self)@ == (RuntimeSight { open: true, ..old(self)@ }),
    {
        self.open = true;
    }

    /// An errand to open a connection to `addr` has failed; `why` says how.
    pub fn open_failed(&mut self, addr: &str, why: &str)
        ensures
            exists|reason: String|
                reason@ == "open "@ + addr@ + ": "@ + why@ && final(self)@
                    == #[trigger] after_open_failed(old(self)@, reason),
    {
        let mut reason = String::new();
        reason.append("open ");
        reason.append(addr);
        reason.append(": ");
        reason.append(why);
        assert(reason@ =~= "open "@ + addr@ + ": "@ + why@);
        let ghost kept = reason;
        let tail = self.core.handle_intent(Intent::ConnectionLost { reason });
        let ghost asked = effect::requests(tail@);
        let mut first: Vec<Effect> = Vec::new();
        let ghost keep = |r: Request| inert(r);
        assert(asked.take(0).filter(keep) =~= Seq::<Request>::empty()) by {
            reveal(Seq::filter);
        }
        assert(effect::requests(first@) =~= Seq::<Request>::empty());
        for t in it: tail
            invariant
                it.seq() == tail@,
                asked == effect::requests(tail@),
                keep == (|r: Request| inert(r)),
                effect::requests(first@) == asked.take(it.index() as int).filter(keep),
        {
            let ghost before = first@;
            proof {
                let i = it.index() as int;
                assert(asked.take(i + 1).drop_last() =~= asked.take(i));
                assert(asked.take(i + 1).last() == t@);
                reveal(Seq::filter);
            }
            let wanted = match &t {
                Effect::PersistSessionKey(_) => true,
                Effect::Log { .. } => true,
                _ => false,
            };
            if wanted {
                first.push(t);
                assert(effect::requests(first@) =~= effect::requests(before).push(t@));
            }
        }
        assert(asked.take(asked.len() as int) =~= asked);
        first.append(&mut self.pending);
        self.pending = first;
        assert(self@ =~= after_open_failed(old(self)@, kept));
    }

    /// The next errand of the host.
    pub fn next_errand(&mut self) -> (errand: Errand)
        ensures
            (final(self)@, errand) == served(old(self)@),
    {
        while self.pending.len() > 0
            invariant
                served(self@) == served(old(self)@),
            decreases self.pending@.len(),
        {
            let ghost before = self@;
            let effect = self.pending.remove(0);
            assert(effect@ == before.pending[0]);
            assert(effect::requests(self.pending@) =~= before.pending.skip(1));
            assert(self@ =~= RuntimeSight { pending: before.pending.skip(1), ..before });
            match effect {
                Effect::OpenConnection { addr } => {
                    self.open = false;
                    return Errand::Open { addr };
                },
                Effect::CloseConnection => {
                    self.open = false;
                    return Errand::Close;
                },
                Effect::Send(msg) => {
                    if self.open {
                        return Errand::Send(msg);
                    }
                    return Errand::Dropped(msg);
                },
                Effect::PersistSessionKey(key) => match key {
                    Some(k) => {
                        return Errand::Save(k);
                    },
                    None => {
                        return Errand::Clear;
                    },
                },
                Effect::Schedule { .. } => {},
                Effect::Log { level, message, fields } => {
                    let entry = LogEntry { level, message, fields };
                    let ghost lines = log_lines(self.logs@);
                    self.logs.push(entry);
                    assert(log_lines(self.logs@) =~= lines.push(entry@));
                },
            }
        }
        Errand::Rest
    }
}

/// Nothing is sent while there is no connection, and nothing is dropped while there is
/// one.
pub proof fn sends_need_a_connection(s: RuntimeSight)
    ensures
        served(s).1 is Send ==> s.open,
        served(s).1 is Dropped ==> !s.open,
    decreases s.pending.len(),
{
    if s.pending.len() > 0 {
        let rest = RuntimeSight { pending: s.pending.skip(1), ..s };
        match s.pending[0] {
            Request::Schedule { .. } => sends_need_a_connection(rest),
            Request::Log { level, message, fields } => sends_need_a_connection(
                RuntimeSight { logs: rest.logs.push(LogSight { level, message, fields }), ..rest },
            ),
            _ => {},
        }
    }
}

/// Errands run out: each takes at least one effect, and when there is nothing left the
/// host may rest.
pub proof fn errands_run_out(s: RuntimeSight)
    ensures
        served(s).1 is Rest ==> served(s).0.pending.len() == 0,
        !(served(s).1 is Rest) ==> served(s).0.pending.len() < s.pending.len(),
    decreases s.pending.len(),
{
    if s.pending.len() > 0 {
        let rest = RuntimeSight { pending: s.pending.skip(1), ..s };
        match s.pending[0] {
            Request::Schedule { .. } => errands_run_out(rest),
            Request::Log { level, message, fields } => errands_run_out(
                RuntimeSight { logs: rest.logs.push(LogSight { level, message, fields }), ..rest },
            ),
            _ => {},
        }
    }
}

/// A lost connection is a pure reset: the core asks for nothing that touches a
/// connection, so nothing is skipped when an attempt to open one fails.
pub proof fn lost_connections_ask_for_nothing(c: CoreSight, reason: String, i: int)
    requires
        0 <= i < machine::after_intent(c, Intent::ConnectionLost { reason }).1.len(),
    ensures
        inert(machine::after_intent(c, Intent::ConnectionLost { reason }).1[i]),
{
}

/// A request at the head of the queue is what the host is asked to do next, with what it
/// carries; a message goes out only over an open connection. The other requests keep their
/// order, and opening or closing leaves no connection behind until the host reports one.
pub proof fn requests_are_served_in_turn(s: RuntimeSight, r: Request, rest: Seq<Request>)
    requires
        s.pending == seq![r] + rest,
        !(r is Schedule),
        !(r is Log),
    ensures
        ({
            let (after, errand) = served(s);
            &&& after.pending == rest
            &&& after.core == s.core
            &&& after.logs == s.logs
            &&& after.open == (s.open && !(r is OpenConnection) && !(r is CloseConnection))
            &&& r matches Request::OpenConnection { addr } ==> errand == (Errand::Open { addr })
            &&& r is CloseConnection ==> errand == Errand::Close
            &&& r matches Request::Send(msg) ==> (s.open ==> errand == Errand::Send(msg)) && (
            !s.open ==> errand == Errand::Dropped(msg))
            &&& r matches Request::PersistSessionKey(Some(key)) ==> errand == Errand::Save(key)
            &&& r == Request::PersistSessionKey(None) ==> errand == Errand::Clear
        }),
{
    assert(s.pending.skip(1) =~= rest);
    assert(s.pending[0] == r);
}

/// Log lines never hold anything up: they are kept, in order, and what stands behind them
/// is served as if it stood in front.
pub proof fn log_lines_are_kept(
    s: RuntimeSight,
    level: crate::client::effect::LogLevel,
    message: Seq<char>,
    fields: Seq<(Seq<char>, Seq<char>)>,
    rest: Seq<Request>,
)
    requires
        s.pending == seq![Request::Log { level, message, fields }] + rest,
    ensures
        served(s) == served(
            RuntimeSight {
                pending: rest,
                logs: s.logs.push(LogSight { level, message, fields }),
                ..s
            },
        ),
{
    assert(s.pending.skip(1) =~= rest);
    assert(s.pending[0] == (Request::Log { level, message, fields }));
}

/// What the core asks for waits its turn behind what was asked for before. Only after a
/// connection failed to open its notes come first. Nothing that waits is lost, and neither
/// the log nor the connection is touched.
pub proof fn requests_queue_up(s: RuntimeSight, intent: Intent, msg: ServerMessage, reason: String)
    ensures
        ({
            let told = after_host(s, intent);
            let heard = after_inbound(s, msg);
            let failed = after_open_failed(s, reason);
            let k = failed.pending.len() - s.pending.len();
            &&& s.pending.is_prefix_of(told.pending)
            &&& told.pending.skip(s.pending.len() as int) == machine::after_intent(s.core, intent).1
            &&& told.core == machine::after_intent(s.core, intent).0
            &&& s.pending.is_prefix_of(heard.pending)
            &&& heard.pending.skip(s.pending.len() as int) == machine::after_message(s.core, msg).1
            &&& heard.core == machine::after_message(s.core, msg).0
            &&& k >= 0
            &&& failed.pending.skip(k) == s.pending
            &&& failed.core == machine::after_intent(s.core, Intent::ConnectionLost { reason }).0
            &&& told.open == s.open && heard.open == s.open && failed.open == s.open
            &&& told.logs == s.logs && heard.logs == s.logs && failed.logs == s.logs
        }),
{
    let told = after_host(s, intent);
    let heard = after_inbound(s, msg);
    let failed = after_open_failed(s, reason);
    let n = s.pending.len() as int;
    assert(told.pending.subrange(0, n) =~= s.pending);
    assert(heard.pending.subrange(0, n) =~= s.pending);
    assert(told.pending.skip(n) =~= machine::after_intent(s.core, intent).1);
    assert(heard.pending.skip(n) =~= machine::after_message(s.core, msg).1);
    assert(failed.pending.skip(failed.pending.len() - n) =~= s.pending);
}

} // verus!
