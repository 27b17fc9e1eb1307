//! The remote-execution channel's typed surface: the endpoint a secure
//! shell connects to, and the captured result of one remote command.
//!
//! The channel itself (handshake, authentication, running the command,
//! reading stdout and the exit status) is blocking I/O and lives outside
//! the library; its output text feeds the telemetry decoder here.
use vstd::prelude::*;

verus! {

/// A server endpoint for the remote-execution channel. One command runs per
/// session; no session is reused.
#[derive(Debug)]
pub struct PalworldConnection {
    /// Hostname with port, as one dial string.
    pub hostname: String,
    /// Account name for authentication.
    pub username: String,
    /// Password for authentication.
    pub password: String,
}

impl PalworldConnection {
    /// A new endpoint with exactly the given coordinates.
    pub fn new(hostname: &str, username: &str, password: &str) -> (r: Self)
        ensures
            r.hostname@ == hostname@,
            r.username@ == username@,
            r.password@ == password@,
    {
        PalworldConnection {
            hostname: String::from_str(hostname),
            username: String::from_str(username),
            password: String::from_str(password),
        }
    }
}

/// What one remote command produced: its full standard output and its exit
/// status. A nonzero status is data, not a failure; callers decide what it
/// means for their command.
#[derive(Debug)]
pub struct CommandResult {
    /// Everything the command wrote to standard output.
    pub output: String,
    /// The exit status read after the output ended.
    pub exit_status: i32,
}

impl CommandResult {
    /// Packs captured output and exit status into one record.
    pub fn new(output: String, exit_status: i32) -> (r: Self)
        ensures
            r.output@ == output@,
            r.exit_status == exit_status,
    {
        CommandResult { output, exit_status }
    }
}

} // verus!
