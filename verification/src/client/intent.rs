//! Things the host can ask the core to do: user actions and host events.

use vstd::prelude::*;

use crate::game::action::Action;
use crate::net::protocol;
use crate::net::protocol::TableId;

verus! {

/// The top-level command the host issues against the core.
#[derive(Debug)]
pub enum Intent {
    /// Open a connection to `addr`.
    Connect { addr: String },
    /// The connection just finished opening. A handshake issued earlier is flushed
    /// now.
    ConnectionOpened,
    /// First-time account creation.
    Register {
        email: String,
        username: String,
        password: String,
        device_label: Option<String>,
    },
    /// Existing-account login by username or email and password.
    AuthenticatePassword { identifier: String, password: String, device_label: Option<String> },
    /// Re-authenticate using a previously persisted session key.
    AuthenticateSession { key: String, device_label: Option<String> },
    /// Ask the server for the current lobby snapshot.
    ListTables,
    /// Sit down at a table.
    JoinTable { table_id: TableId, buy_in: u32 },
    /// Stand up.
    LeaveTable { table_id: TableId },
    /// Respond to a prompt with an action. The core remembers which hand the prompt
    /// belongs to.
    SubmitAction { action: Action },
    /// Optional keepalive.
    Heartbeat,
    /// Close the connection cleanly.
    Disconnect,
    /// The connection went away without a clean goodbye.
    ConnectionLost { reason: String },
}

impl Clone for Intent {
    fn clone(&self) -> (intent: Intent)
        ensures
            intent == *self,
    {
        match self {
            Intent::Connect { addr } => Intent::Connect { addr: addr.clone() },
            Intent::ConnectionOpened => Intent::ConnectionOpened,
            Intent::Register { email, username, password, device_label } => Intent::Register {
                email: email.clone(),
                username: username.clone(),
                password: password.clone(),
                device_label: protocol::copy_option(device_label),
            },
            Intent::AuthenticatePassword { identifier, password, device_label } =>
                Intent::AuthenticatePassword {
                identifier: identifier.clone(),
                password: password.clone(),
                device_label: protocol::copy_option(device_label),
            },
            Intent::AuthenticateSession { key, device_label } => Intent::AuthenticateSession {
                key: key.clone(),
                device_label: protocol::copy_option(device_label),
            },
            Intent::ListTables => Intent::ListTables,
            Intent::JoinTable { table_id, buy_in } => Intent::JoinTable {
                table_id: *table_id,
                buy_in: *buy_in,
            },
            Intent::LeaveTable { table_id } => Intent::LeaveTable { table_id: *table_id },
            Intent::SubmitAction { action } => Intent::SubmitAction { action: *action },
            Intent::Heartbeat => Intent::Heartbeat,
            Intent::Disconnect => Intent::Disconnect,
            Intent::ConnectionLost { reason } => Intent::ConnectionLost {
                reason: reason.clone(),
            },
        }
    }
}

} // verus!
