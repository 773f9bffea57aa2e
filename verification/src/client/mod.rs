//! Pure synchronous client state machine. No I/O, no clock.
//!
//! The host hands user intents to `ClientCore::handle_intent` and inbound messages to
//! `ClientCore::handle_inbound`, performs the effects that come back, and renders the
//! `ClientView`. The view is the whole authoritative client state.

use vstd::prelude::*;

pub mod effect;
pub mod hand_laws;
pub mod intent;
pub mod laws;
pub mod machine;
pub mod view;

pub use effect::{Effect, LogLevel, ScheduleKind};
pub use intent::Intent;
pub use machine::ClientCore;
pub use view::{ClientView, CurrentHand, Phase};

verus! {

/// Errors the host might surface back into the core. The core itself never returns
/// errors: failures are encoded as effects and reflected in the view.
#[derive(Debug)]
pub enum ExternalError {
    Transport(String),
    Io(String),
}

impl ExternalError {
    /// The error in words.
    pub open spec fn text(self) -> Seq<char> {
        match self {
            ExternalError::Transport(why) => "transport error: "@ + why@,
            ExternalError::Io(why) => "I/O error: "@ + why@,
        }
    }

    /// The error in words.
    pub fn to_text(&self) -> (s: String)
        ensures
            s@ == self.text(),
    {
        let mut s = String::new();
        match self {
            ExternalError::Transport(why) => {
                s.append("transport error: ");
                s.append(why.as_str());
            },
            ExternalError::Io(why) => {
                s.append("I/O error: ");
                s.append(why.as_str());
            },
        }
        assert(s@ =~= self.text());
        s
    }
}

} // verus!
