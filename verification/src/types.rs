//! The vocabulary of recordings.
use vstd::prelude::*;

verus! {

/// The system that a call goes to.
#[derive(Debug, Clone, Copy, PartialEq, Eq, Structural)]
pub enum CallType {
    Http,
    Grpc,
    Postgres,
    Redis,
    Function,
}

/// How a call ended.
#[derive(Debug, Clone, Copy, PartialEq, Eq, Structural)]
pub enum CallStatus {
    Completed,
    Error,
    Cancelled,
    Timeout,
}

/// What the interceptors do.
#[derive(Debug, Clone, Copy, PartialEq, Eq, Structural)]
pub enum ReplayMode {
    Record,
    Replay,
    /// Calls to other systems are answered from the recording, as in `Replay`.
    /// Annotated functions run their code and write their results under a
    /// separate capture id, so that they can be compared with the recording.
    Shadow,
    Passthrough,
    Off,
}

} // verus!
