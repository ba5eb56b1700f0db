//! The addresses that the server answers.

use vstd::prelude::*;

verus! {

/// The comparison page.
pub const COMPARISON_ROUTE: &'static str = "/";

/// The script that reports browser activity.
pub const LIFECYCLE_SCRIPT_ROUTE: &'static str = "/lifecycle.js";

/// Receives the heartbeats of the lifecycle script.
pub const HEARTBEAT_ROUTE: &'static str = "/heartbeat";

/// Accepts the WebSocket of the lifecycle script.
pub const WEBSOCKET_ROUTE: &'static str = "/ws";

/// Followed by the index of a file: squashes that file into a commit.
pub const SQUASH_ROUTE: &'static str = "/squash/";

} // verus!
