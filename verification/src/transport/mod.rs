//! Between the client's state machine and a connection: what travels, what is kept,
//! and what to do next. Sockets, files and threads are the host's.

pub mod link;
pub mod pump;
pub mod runtime;
pub mod session;

pub use link::{
    Closed, Disconnected, InMemoryTransportError, NativeTransport, NativeTransportError, TransportIn,
};
pub use pump::{PumpAction, PumpEvent, PumpFault};
pub use runtime::{Errand, LogEntry, Runtime};
pub use session::SessionStore;
