//! The messages exchanged between the agent and its server.
use vstd::prelude::*;

verus! {

/// A message from the server to the agent.
#[derive(Debug, PartialEq, Eq)]
pub enum ServerMessage {
    /// Run the command line `command` (a program and its arguments, separated
    /// by white space); the reply carries `id`.
    Command { id: String, command: String },
    /// Run `command` with the arguments `args`; the reply carries `id`.
    Exec { id: String, command: String, args: Vec<String> },
    /// Ask for a heartbeat.
    Ping,
}

/// A message from the agent to the server.
#[derive(Debug, PartialEq, Eq)]
pub enum ClientMessage {
    /// The first message of a connection: who the agent is.
    Auth { agent_id: String, token: Option<String> },
    /// The agent is alive at `timestamp`, in seconds since the Unix epoch.
    Heartbeat { timestamp: u64 },
    /// A chunk of a running command's output, sent as it is produced.
    Output { id: String, stream: StreamType, chunk: String },
    /// The outcome of a command: whether it succeeded, its output, and the
    /// error where it did not succeed.
    Response { id: String, success: bool, output: String, error: Option<String> },
}

/// Which output stream of a command a chunk comes from.
#[derive(Debug, Clone, Copy, PartialEq, Eq, Structural)]
pub enum StreamType {
    Stdout,
    Stderr,
}

} // verus!
