//! A desktop viewer without its window: what is shown, and what a click does.

pub mod live;
pub mod live_net;
pub mod mode;
pub mod page;
pub mod replay;
pub mod snapshot;
pub mod snapshot_laws;

pub use live::{LiveApp, LivePhase, Panel, PendingPrompt};
pub use live_net::{LiveEvent, LoginRequest, NetAction, NetEvent};
pub use mode::{pick_mode, Cli, Mode};
pub use page::{CardChip, Page, PlayerRow, ResultRow};
pub use replay::{ReplayApp, Screen};
pub use snapshot::{describe_event, fmt_action, PlayerView, Snapshot};
