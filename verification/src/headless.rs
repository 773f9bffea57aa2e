//! Headless client harness: drives a [`ClientCore`], records its effects and
//! snapshots, and replays scripts.

use vstd::prelude::*;

use crate::client::effect;
use crate::client::effect::{Effect, Request};
use crate::client::machine;
use crate::client::machine::CoreSight;
use crate::client::view::ViewSight;
use crate::client::{ClientCore, ClientView, Intent, Phase};
use crate::net::protocol::ServerMessage;
use crate::text;

verus! {

/// Wraps a [`ClientCore`] with effect recording and assertion helpers. The full
/// effect stream is preserved across every call.
pub struct HeadlessClient {
    core: ClientCore,
    effects: Vec<Effect>,
    snapshots: Vec<ClientView>,
}

/// The harness: the core, everything it requested, and everything it showed.
#[verifier::ext_equal]
pub struct HarnessSight {
    pub core: CoreSight,
    pub effects: Seq<Request>,
    pub snapshots: Seq<ViewSight>,
}

/// The views one by one.
pub open spec fn views(snapshots: Seq<ClientView>) -> Seq<ViewSight> {
    Seq::new(snapshots.len(), |i: int| snapshots[i]@)
}

impl HeadlessClient {
    /// The harness with its lists as sequences.
    pub closed spec fn sight(&self) -> HarnessSight {
        HarnessSight {
            core: self.core@,
            effects: effect::requests(self.effects@),
            snapshots: views(self.snapshots@),
        }
    }
}

/// The harness after its core took a step: the requests are recorded, and a snapshot
/// is taken.
pub open spec fn recorded(h: HarnessSight, step: (CoreSight, Seq<Request>)) -> HarnessSight {
    HarnessSight {
        core: step.0,
        effects: h.effects + step.1,
        snapshots: h.snapshots.push(step.0.view),
    }
}

impl HeadlessClient {
    pub fn new(initial_session_key: Option<String>) -> (h: HeadlessClient)
        ensures
            h.sight().core.view == ViewSight::empty(),
            h.sight().core.session_key == initial_session_key,
            !h.sight().core.connection_open,
            h.sight().core.pending is None,
            h.sight().core.prompt is None,
            h.sight().effects == Seq::<Request>::empty(),
            h.sight().snapshots == seq![ViewSight::empty()],
    {
        let core = ClientCore::new(initial_session_key);
        let mut snapshots: Vec<ClientView> = Vec::new();
        snapshots.push(core.snapshot());
        let h = HeadlessClient { core, effects: Vec::new(), snapshots };
        assert(h.sight().effects =~= Seq::<Request>::empty());
        assert(h.sight().snapshots =~= seq![ViewSight::empty()]);
        h
    }

    /// Appends effects, takes a snapshot, and returns the new part of the log.
    fn record(&mut self, more: Vec<Effect>) -> (new: &[Effect])
        ensures
            final(self).sight() == recorded(old(self).sight(), (old(self).sight().core, effect::requests(more@))),
            effect::requests(new@) == effect::requests(more@),
    {
        let start: usize = self.effects.len();
        let ghost before = self.effects@;
        let ghost added = more@;
        let mut more = more;
        self.effects.append(&mut more);
        self.snapshots.push(self.core.snapshot());
        assert(effect::requests(self.effects@) =~= effect::requests(before)
            + effect::requests(added));
        assert(views(self.snapshots@) =~= views(old(self).snapshots@).push(self.core@.view));
        let n: usize = self.effects.len();
        let new = vstd::slice::slice_subrange(self.effects.as_slice(), start, n);
        assert(effect::requests(new@) =~= effect::requests(added));
        new
    }

    /// Issue an intent and return the effects produced.
    pub fn intent(&mut self, intent: Intent) -> (new: &[Effect])
        ensures
            final(self).sight() == recorded(
                old(self).sight(),
                machine::after_intent(old(self).sight().core, intent),
            ),
            effect::requests(new@) == machine::after_intent(old(self).sight().core, intent).1,
    {
        let effs = self.core.handle_intent(intent);
        self.record(effs)
    }

    /// Hand an inbound message to the core and return the effects it produced.
    pub fn inbound(&mut self, msg: ServerMessage) -> (new: &[Effect])
        ensures
            final(self).sight() == recorded(
                old(self).sight(),
                machine::after_message(old(self).sight().core, msg),
            ),
            effect::requests(new@) == machine::after_message(old(self).sight().core, msg).1,
    {
        let effs = self.core.handle_inbound(msg);
        self.record(effs)
    }

    /// Read-only access to the core's view.
    pub fn view(&self) -> (v: ClientView)
        ensures
            v@ == self.sight().core.view,
    {
        self.core.snapshot()
    }

    /// Full effect stream since the harness was constructed.
    pub fn effect_log(&self) -> (log: &[Effect])
        ensures
            effect::requests(log@) == self.sight().effects,
    {
        self.effects.as_slice()
    }

    /// All snapshots taken: one initial and one per intent or message.
    pub fn snapshot_log(&self) -> (log: &[ClientView])
        ensures
            views(log@) == self.sight().snapshots,
    {
        self.snapshots.as_slice()
    }

    /// Asserts the phase: the core has to be in it.
    pub fn assert_phase(&self, expected: &Phase)
        requires
            self.sight().core.view.phase.same(*expected),
    {
        let same = self.core.snapshot().phase.is_same(expected);
        vstd::pervasive::runtime_assert(same);
    }
}

/// One step in a scripted scenario.
#[derive(Debug)]
pub enum Step {
    Issue(Intent),
    Receive(ServerMessage),
}

/// A linear sequence of steps.
pub type Script = Vec<Step>;

/// What one step does to the core.
pub open spec fn after_step(c: CoreSight, step: Step) -> (CoreSight, Seq<Request>) {
    match step {
        Step::Issue(intent) => machine::after_intent(c, intent),
        Step::Receive(msg) => machine::after_message(c, msg),
    }
}

/// The harness after the first `n` steps of a script.
pub open spec fn after_steps(h: HarnessSight, steps: Seq<Step>, n: int) -> HarnessSight
    decreases n,
{
    if n <= 0 {
        h
    } else {
        let before = after_steps(h, steps, n - 1);
        recorded(before, after_step(before.core, steps[n - 1]))
    }
}

impl HeadlessClient {
    /// Drives the client through a script, step by step.
    pub fn run(&mut self, script: Script)
        ensures
            final(self).sight() == after_steps(old(self).sight(), script@, script@.len() as int),
    {
        let ghost steps = script@;
        for step in it: script
            invariant
                it.seq() == steps,
                self.sight() == after_steps(old(self).sight(), steps, it.index() as int),
        {
            assert(step == steps[it.index() as int]);
            match step {
                Step::Issue(intent) => {
                    let _ = self.intent(intent);
                },
                Step::Receive(msg) => {
                    let _ = self.inbound(msg);
                },
            }
        }
    }
}

/// A script leaves one snapshot per step, and the one before it began.
pub proof fn script_leaves_a_snapshot_per_step(h: HarnessSight, steps: Seq<Step>, n: int)
    requires
        0 <= n <= steps.len(),
    ensures
        after_steps(h, steps, n).snapshots.len() == h.snapshots.len() + n,
        n > 0 ==> after_steps(h, steps, n).snapshots.last() == after_steps(h, steps, n).core.view,
        h.effects.is_prefix_of(after_steps(h, steps, n).effects),
    decreases n,
{
    if n > 0 {
        script_leaves_a_snapshot_per_step(h, steps, n - 1);
    }
}

// ---------------------------------------------------------------------------
// Describing steps
// ---------------------------------------------------------------------------

/// The kind of a server message.
pub open spec fn message_kind(msg: ServerMessage) -> Seq<char> {
    match msg {
        ServerMessage::Welcome { .. } => "Welcome"@,
        ServerMessage::Rejected { .. } => "Rejected"@,
        ServerMessage::Goodbye { .. } => "Goodbye"@,
        ServerMessage::Heartbeat => "Heartbeat"@,
        ServerMessage::TableList { .. } => "TableList"@,
        ServerMessage::JoinedTable { .. } => "JoinedTable"@,
        ServerMessage::LeftTable { .. } => "LeftTable"@,
        ServerMessage::TableState { .. } => "TableState"@,
        ServerMessage::TableEvent { .. } => "TableEvent"@,
        ServerMessage::Prompt { .. } => "Prompt"@,
        ServerMessage::ActionRejected { .. } => "ActionRejected"@,
        ServerMessage::ReplayEvents { .. } => "ReplayEvents"@,
    }
}

/// The kind of a server message.
pub fn discriminant_name(msg: &ServerMessage) -> (s: &'static str)
    ensures
        s@ == message_kind(*msg),
{
    match msg {
        ServerMessage::Welcome { .. } => "Welcome",
        ServerMessage::Rejected { .. } => "Rejected",
        ServerMessage::Goodbye { .. } => "Goodbye",
        ServerMessage::Heartbeat => "Heartbeat",
        ServerMessage::TableList { .. } => "TableList",
        ServerMessage::JoinedTable { .. } => "JoinedTable",
        ServerMessage::LeftTable { .. } => "LeftTable",
        ServerMessage::TableState { .. } => "TableState",
        ServerMessage::TableEvent { .. } => "TableEvent",
        ServerMessage::Prompt { .. } => "Prompt",
        ServerMessage::ActionRejected { .. } => "ActionRejected",
        ServerMessage::ReplayEvents { .. } => "ReplayEvents",
    }
}

/// A step in one line. Secrets are left out.
pub open spec fn step_text(step: Step) -> Seq<char> {
    match step {
        Step::Issue(intent) => "Issue "@ + match intent {
            Intent::Connect { addr } => "Connect("@ + addr@ + ")"@,
            Intent::Register { username, .. } => "Register(username="@ + username@ + ")"@,
            Intent::AuthenticatePassword { identifier, .. } => "AuthenticatePassword("@
                + identifier@ + ")"@,
            Intent::AuthenticateSession { .. } => "AuthenticateSession"@,
            Intent::ListTables => "ListTables"@,
            Intent::JoinTable { table_id, buy_in } => "JoinTable("@ + text::decimal(
                table_id as nat,
            ) + ", buy_in="@ + text::decimal(buy_in as nat) + ")"@,
            Intent::LeaveTable { table_id } => "LeaveTable("@ + text::decimal(table_id as nat)
                + ")"@,
            Intent::SubmitAction { action } => "SubmitAction("@ + action.name() + ")"@,
            Intent::Heartbeat => "Heartbeat"@,
            Intent::Disconnect => "Disconnect"@,
            Intent::ConnectionOpened => "ConnectionOpened"@,
            Intent::ConnectionLost { reason } => "ConnectionLost("@ + reason@ + ")"@,
        },
        Step::Receive(msg) => "Receive \""@ + message_kind(msg) + "\""@,
    }
}

/// A step in one line. Secrets are left out.
pub fn step_one_line(step: &Step) -> (s: String)
    ensures
        s@ == step_text(*step),
{
    let mut s = String::new();
    match step {
        Step::Issue(intent) => {
            s.append("Issue ");
            match intent {
                Intent::Connect { addr } => {
                    s.append("Connect(");
                    s.append(addr.as_str());
                    s.append(")");
                },
                Intent::Register { username, .. } => {
                    s.append("Register(username=");
                    s.append(username.as_str());
                    s.append(")");
                },
                Intent::AuthenticatePassword { identifier, .. } => {
                    s.append("AuthenticatePassword(");
                    s.append(identifier.as_str());
                    s.append(")");
                },
                Intent::AuthenticateSession { .. } => s.append("AuthenticateSession"),
                Intent::ListTables => s.append("ListTables"),
                Intent::JoinTable { table_id, buy_in } => {
                    s.append("JoinTable(");
                    text::push_decimal(&mut s, *table_id as u64);
                    s.append(", buy_in=");
                    text::push_decimal(&mut s, *buy_in as u64);
                    s.append(")");
                },
                Intent::LeaveTable { table_id } => {
                    s.append("LeaveTable(");
                    text::push_decimal(&mut s, *table_id as u64);
                    s.append(")");
                },
                Intent::SubmitAction { action } => {
                    s.append("SubmitAction(");
                    action.push_name(&mut s);
                    s.append(")");
                },
                Intent::Heartbeat => s.append("Heartbeat"),
                Intent::Disconnect => s.append("Disconnect"),
                Intent::ConnectionOpened => s.append("ConnectionOpened"),
                Intent::ConnectionLost { reason } => {
                    s.append("ConnectionLost(");
                    s.append(reason.as_str());
                    s.append(")");
                },
            }
        },
        Step::Receive(msg) => {
            s.append("Receive \"");
            s.append(discriminant_name(msg));
            s.append("\"");
        },
    }
    assert(s@ =~= step_text(*step));
    s
}

} // verus!
