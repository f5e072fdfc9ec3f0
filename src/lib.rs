use vstd::prelude::*;

pub mod pattern;
pub mod signal;
pub mod history;
pub mod ratelimit;
pub mod table;
pub mod auth;
pub mod registry;
pub mod protocol;
pub mod daemon;
pub mod client;

pub use pattern::pattern_match;
pub use signal::{PersistentSignal, Signal};
pub use auth::{Permission, PermissionSet};
pub use daemon::DaemonState;
pub use protocol::{Request, parse_request};
pub use client::{Cli, Command};

verus! {

} // verus!
