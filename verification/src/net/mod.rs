//! Wire protocol shared by the poker server and live clients.
//!
//! `protocol` defines the message types; `frame` defines the
//! `[u32 LE length][payload]` framing, the same shape as an event log. There is no
//! I/O in this module.

pub mod frame;
pub mod protocol;

pub use protocol::{
    ClientMessage, LifetimeStats, PlayerId, SeatInfo, ServerMessage, TableId, TableInfo,
    PROTOCOL_VERSION,
};
