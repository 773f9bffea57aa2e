//! Message types of the live poker server, and the rules for account data.
//!
//! Handshake: the first message on a fresh connection is either
//! [`ClientMessage::Register`] or [`ClientMessage::Authenticate`]. Both succeed with
//! [`ServerMessage::Welcome`] carrying a `session_key` that survives reconnects.

use vstd::prelude::*;

use crate::game::action::{Action, LegalActions};
use crate::game::event::EngineEvent;
use crate::game::state::{HandId, SeatIndex};
use crate::text;

verus! {

/// Bumped on any backwards-incompatible change to message shapes.
pub const PROTOCOL_VERSION: u32 = 3;

/// Stable identifier for a poker table. Allocated by the server.
pub type TableId = u32;

/// Stable identifier for a registered player. Allocated by the server.
pub type PlayerId = u64;

/// Public summary of a table for the lobby view.
#[derive(Debug, PartialEq, Eq)]
pub struct TableInfo {
    pub table_id: TableId,
    pub name: String,
    pub small_blind: u32,
    pub big_blind: u32,
    pub max_seats: u8,
    pub seated: u8,
    pub default_buy_in: u32,
}

impl Clone for TableInfo {
    fn clone(&self) -> (info: TableInfo)
        ensures
            info == *self,
    {
        TableInfo {
            table_id: self.table_id,
            name: self.name.clone(),
            small_blind: self.small_blind,
            big_blind: self.big_blind,
            max_seats: self.max_seats,
            seated: self.seated,
            default_buy_in: self.default_buy_in,
        }
    }
}

/// One seat's public state.
#[derive(Debug, PartialEq, Eq)]
pub struct SeatInfo {
    pub seat: SeatIndex,
    pub player_id: PlayerId,
    pub username: String,
    pub stack: u32,
}

impl Clone for SeatInfo {
    fn clone(&self) -> (info: SeatInfo)
        ensures
            info == *self,
    {
        SeatInfo {
            seat: self.seat,
            player_id: self.player_id,
            username: self.username.clone(),
            stack: self.stack,
        }
    }
}

/// Long-running aggregate stats kept per player across sessions.
#[derive(Debug, Clone, Copy, PartialEq, Eq, Structural)]
pub struct LifetimeStats {
    pub hands: u64,
    pub voluntary_pf: u64,
    pub raised_pf: u64,
    pub aggressive_actions: u64,
    pub passive_actions: u64,
    pub showdowns: u64,
    pub chip_delta: i64,
}

impl Default for LifetimeStats {
    fn default() -> (stats: LifetimeStats)
        ensures
            stats == (LifetimeStats {
                hands: 0,
                voluntary_pf: 0,
                raised_pf: 0,
                aggressive_actions: 0,
                passive_actions: 0,
                showdowns: 0,
                chip_delta: 0,
            }),
    {
        LifetimeStats {
            hands: 0,
            voluntary_pf: 0,
            raised_pf: 0,
            aggressive_actions: 0,
            passive_actions: 0,
            showdowns: 0,
            chip_delta: 0,
        }
    }
}

/// How the client is proving its identity.
#[derive(Debug, PartialEq)]
pub enum AuthMode {
    /// Email or username and plaintext password.
    Password { identifier: String, password: String },
    /// Reuse a `session_key` previously issued by a `Welcome`.
    Session { key: String },
}

impl Clone for AuthMode {
    fn clone(&self) -> (mode: AuthMode)
        ensures
            mode == *self,
    {
        match self {
            AuthMode::Password { identifier, password } => AuthMode::Password {
                identifier: identifier.clone(),
                password: password.clone(),
            },
            AuthMode::Session { key } => AuthMode::Session { key: key.clone() },
        }
    }
}

/// Messages a client sends to the server.
#[derive(Debug, PartialEq)]
pub enum ClientMessage {
    /// Create a new account. Email and username must both be unused.
    Register {
        protocol_version: u32,
        email: String,
        username: String,
        password: String,
        device_label: Option<String>,
    },
    /// Authenticate an existing account by password or by a previously issued
    /// session key.
    Authenticate { protocol_version: u32, mode: AuthMode, device_label: Option<String> },
    /// Ask the server for the current table list.
    ListTables,
    /// Take an open seat at `table_id`.
    JoinTable { table_id: TableId, buy_in: u32 },
    /// Stand up from a table the player currently occupies. Effective at the next
    /// hand boundary.
    LeaveTable { table_id: TableId },
    /// Response to a [`ServerMessage::Prompt`]. `hand_id` echoes the prompt so a
    /// stale or duplicate response is dropped.
    SubmitAction { table_id: TableId, hand_id: HandId, action: Action },
    /// Ask for the messages of a hand in progress, after a reconnect.
    RequestReplay { table_id: TableId, hand_id: HandId },
    /// Optional keepalive. The server echoes a `Heartbeat` back.
    Heartbeat,
    /// Graceful close.
    Disconnect,
}

/// A copy of an optional text.
pub(crate) fn copy_option(s: &Option<String>) -> (r: Option<String>)
    ensures
        r == *s,
{
    match s {
        Some(t) => Some(t.clone()),
        None => None,
    }
}

impl Clone for ClientMessage {
    fn clone(&self) -> (msg: ClientMessage)
        ensures
            msg == *self,
    {
        match self {
            ClientMessage::Register {
                protocol_version,
                email,
                username,
                password,
                device_label,
            } => ClientMessage::Register {
                protocol_version: *protocol_version,
                email: email.clone(),
                username: username.clone(),
                password: password.clone(),
                device_label: copy_option(device_label),
            },
            ClientMessage::Authenticate { protocol_version, mode, device_label } =>
                ClientMessage::Authenticate {
                protocol_version: *protocol_version,
                mode: mode.clone(),
                device_label: copy_option(device_label),
            },
            ClientMessage::ListTables => ClientMessage::ListTables,
            ClientMessage::JoinTable { table_id, buy_in } => ClientMessage::JoinTable {
                table_id: *table_id,
                buy_in: *buy_in,
            },
            ClientMessage::LeaveTable { table_id } => ClientMessage::LeaveTable {
                table_id: *table_id,
            },
            ClientMessage::SubmitAction { table_id, hand_id, action } =>
                ClientMessage::SubmitAction {
                table_id: *table_id,
                hand_id: *hand_id,
                action: *action,
            },
            ClientMessage::RequestReplay { table_id, hand_id } => ClientMessage::RequestReplay {
                table_id: *table_id,
                hand_id: *hand_id,
            },
            ClientMessage::Heartbeat => ClientMessage::Heartbeat,
            ClientMessage::Disconnect => ClientMessage::Disconnect,
        }
    }
}

/// Messages the server sends to a client.
#[derive(Debug)]
pub enum ServerMessage {
    /// Handshake accepted.
    Welcome {
        protocol_version: u32,
        player_id: PlayerId,
        username: String,
        session_key: String,
        stats: LifetimeStats,
    },
    /// Handshake refused. `reason` is a short, human-readable string.
    Rejected { protocol_version: u32, reason: String },
    /// Snapshot of the lobby.
    TableList { tables: Vec<TableInfo> },
    /// Confirms a successful sit.
    JoinedTable { table_id: TableId, seat: SeatIndex, seats: Vec<SeatInfo> },
    /// Confirms a stand-up.
    LeftTable { table_id: TableId },
    /// One engine event from a table the player is sat at or observing.
    TableEvent { table_id: TableId, event: EngineEvent },
    /// Periodic seat snapshot.
    TableState { table_id: TableId, seats: Vec<SeatInfo>, button: SeatIndex },
    /// Server is asking the client for an action.
    Prompt {
        table_id: TableId,
        hand_id: HandId,
        seat: SeatIndex,
        legal: LegalActions,
        deadline_ms: u32,
    },
    /// Sent in response to a request the server could not satisfy. Non-fatal.
    ActionRejected { reason: String },
    /// The messages of a hand in progress, in order.
    ReplayEvents { hand_id: HandId, events: Vec<ServerMessage> },
    /// Echo of a client heartbeat.
    Heartbeat,
    /// Server is closing this connection cleanly.
    Goodbye { reason: String },
}

/// Reasons the server may reject `Register` / `Authenticate`.
#[derive(Debug, Clone, Copy, PartialEq, Eq, Structural)]
pub enum RejectReason {
    ProtocolMismatch,
    InvalidUsername,
    InvalidEmail,
    InvalidPassword,
    UsernameInUse,
    EmailInUse,
    BadCredentials,
    SessionRevoked,
    UnknownSession,
    InternalError,
}

impl RejectReason {
    /// The reason in words.
    pub open spec fn text(self) -> Seq<char> {
        match self {
            RejectReason::ProtocolMismatch => "protocol version mismatch"@,
            RejectReason::InvalidUsername => "invalid username"@,
            RejectReason::InvalidEmail => "invalid email"@,
            RejectReason::InvalidPassword => "invalid password"@,
            RejectReason::UsernameInUse => "username already in use"@,
            RejectReason::EmailInUse => "email already in use"@,
            RejectReason::BadCredentials => "bad credentials"@,
            RejectReason::SessionRevoked => "session revoked"@,
            RejectReason::UnknownSession => "unknown session"@,
            RejectReason::InternalError => "internal error"@,
        }
    }

    pub fn as_str(self) -> (s: &'static str)
        ensures
            s@ == self.text(),
    {
        match self {
            RejectReason::ProtocolMismatch => "protocol version mismatch",
            RejectReason::InvalidUsername => "invalid username",
            RejectReason::InvalidEmail => "invalid email",
            RejectReason::InvalidPassword => "invalid password",
            RejectReason::UsernameInUse => "username already in use",
            RejectReason::EmailInUse => "email already in use",
            RejectReason::BadCredentials => "bad credentials",
            RejectReason::SessionRevoked => "session revoked",
            RejectReason::UnknownSession => "unknown session",
            RejectReason::InternalError => "internal error",
        }
    }
}

// ---------------------------------------------------------------------------
// Account data
// ---------------------------------------------------------------------------

/// An ASCII letter or digit.
pub open spec fn alphanumeric(c: char) -> bool {
    'a' <= c <= 'z' || 'A' <= c <= 'Z' || '0' <= c <= '9'
}

/// 3 to 24 characters, all of them ASCII letters, digits, `_`, `-` or `.`, the first
/// a letter or digit.
pub open spec fn valid_username(name: Seq<char>) -> bool {
    &&& 3 <= name.len() <= 24
    &&& alphanumeric(name[0])
    &&& forall|i: int|
        0 <= i < name.len() ==> alphanumeric(#[trigger] name[i]) || name[i] == '_' || name[i] == '-'
            || name[i] == '.'
}

/// Username validation. Kept here so clients can check without a round-trip and stay
/// in step with the server.
pub fn is_valid_username(name: &str) -> (r: bool)
    ensures
        r == valid_username(name@),
{
    let n: usize = name.unicode_len();
    if n < 3 || n > 24 {
        return false;
    }
    if !is_alphanumeric(name.get_char(0)) {
        return false;
    }
    let mut i: usize = 0;
    while i < n
        invariant
            i <= n == name@.len(),
            forall|k: int|
                0 <= k < i ==> alphanumeric(#[trigger] name@[k]) || name@[k] == '_' || name@[k]
                    == '-' || name@[k] == '.',
        decreases n - i,
    {
        let c = name.get_char(i);
        if !(is_alphanumeric(c) || c == '_' || c == '-' || c == '.') {
            assert(!alphanumeric(name@[i as int]));
            return false;
        }
        i = i + 1;
    }
    true
}

fn is_alphanumeric(c: char) -> (r: bool)
    ensures
        r == alphanumeric(c),
{
    ('a' <= c && c <= 'z') || ('A' <= c && c <= 'Z') || ('0' <= c && c <= '9')
}

/// Unicode control characters.
pub open spec fn control(c: char) -> bool {
    let v = c as u32;
    v <= 0x1f || 0x7f <= v <= 0x9f
}

fn is_blank(c: char) -> (r: bool)
    ensures
        r == (text::white(c) || control(c)),
{
    let v: u32 = c as u32;
    v <= 0x20 || (v >= 0x7f && v <= 0xa0) || v == 0x1680 || (v >= 0x2000 && v <= 0x200a) || v
        == 0x2028 || v == 0x2029 || v == 0x202f || v == 0x205f || v == 0x3000
}

/// Exactly one `@`, with something before it and a `.` after it, and no white space
/// or control characters.
pub open spec fn email_shape(email: Seq<char>) -> bool {
    &&& exists|at: int|
        {
            &&& 0 < at < email.len()
            &&& #[trigger] email[at] == '@'
            &&& forall|i: int| 0 <= i < email.len() && i != at ==> #[trigger] email[i] != '@'
            &&& exists|dot: int| at < dot < email.len() && #[trigger] email[dot] == '.'
        }
    &&& forall|i: int|
        0 <= i < email.len() ==> !text::white(#[trigger] email[i]) && !control(email[i])
}

/// An address of the right shape and a length (in bytes) that an envelope can carry.
pub open spec fn valid_email(email: Seq<char>) -> bool {
    3 <= vstd::utf8::encode_utf8(email).len() <= 254 && email_shape(email)
}

/// A password of 8 to 128 bytes.
pub open spec fn valid_password(password: Seq<char>) -> bool {
    8 <= vstd::utf8::encode_utf8(password).len() <= 128
}

/// Lightweight email shape check, with the length (in bytes) of the SMTP envelope
/// limit. It catches typos without forbidding any sane address.
pub fn is_valid_email(email: &str) -> (r: bool)
    ensures
        r == valid_email(email@),
{
    let bytes: usize = email.as_bytes().len();
    if bytes < 3 || bytes > 254 {
        return false;
    }
    let n: usize = email.unicode_len();
    let mut at: Option<usize> = None;
    let mut dot_after = false;
    let mut i: usize = 0;
    while i < n
        invariant
            i <= n == email@.len(),
            match at {
                None => !dot_after && forall|k: int| 0 <= k < i ==> #[trigger] email@[k] != '@',
                Some(a) => {
                    &&& a < i
                    &&& email@[a as int] == '@'
                    &&& forall|k: int| 0 <= k < i && k != a ==> #[trigger] email@[k] != '@'
                    &&& dot_after <==> exists|d: int| a < d < i && #[trigger] email@[d] == '.'
                },
            },
            forall|k: int|
                0 <= k < i ==> !text::white(#[trigger] email@[k]) && !control(email@[k]),
        decreases n - i,
    {
        let c = email.get_char(i);
        if is_blank(c) {
            assert(text::white(email@[i as int]) || control(email@[i as int]));
            return false;
        }
        if c == '@' {
            match at {
                Some(a) => {
                    assert(email@[i as int] == '@' && email@[a as int] == '@');
                    return false;
                },
                None => {
                    at = Some(i);
                },
            }
        } else if c == '.' {
            if at.is_some() {
                dot_after = true;
                assert(email@[i as int] == '.');
            }
        }
        i = i + 1;
    }
    match at {
        None => false,
        Some(a) => {
            let r = a > 0 && dot_after;
            proof {
                if !r && email_shape(email@) {
                    let b = choose|b: int|
                        {
                            &&& 0 < b < email@.len()
                            &&& #[trigger] email@[b] == '@'
                            &&& forall|i: int|
                                0 <= i < email@.len() && i != b ==> #[trigger] email@[i] != '@'
                            &&& exists|dot: int| b < dot < email@.len() && #[trigger] email@[dot] == '.'
                        };
                    assert(email@[a as int] == '@');
                    assert(b == a);
                }
            }
            r
        },
    }
}

/// Password length window, in bytes. Trivially weak passwords are caught at the
/// boundary.
pub fn is_valid_password(password: &str) -> (r: bool)
    ensures
        r == valid_password(password@),
{
    let len: usize = password.as_bytes().len();
    len >= 8 && len <= 128
}

} // verus!
