pub mod meminfo;
pub mod packet;
pub mod remote;
pub mod response;
pub mod session;
pub mod text;

use vstd::prelude::*;

verus! {

/// Default Source Engine port; the game server listens on the same port.
pub const DEFAULT_SOURCE_PORT: u16 = 25575;

/// The error kinds that the client surfaces; no layer retries or swallows
/// them, they all propagate to the caller unchanged.
#[derive(Clone, Copy, Debug, PartialEq, Eq, Structural)]
pub enum RconError {
    /// Transport-level failure (refused, reset, timeout), on either channel.
    Connection,
    /// The control channel rejected the credential (echoed id of -1).
    Authentication,
    /// A frame declared an implausible length, or the stream ended mid-frame.
    Framing,
    /// A complete frame whose contents do not parse.
    Protocol,
    /// An expected pattern was absent from response text.
    Parse,
}

} // verus!
