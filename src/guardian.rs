//! Playbook steps, run states and errors of the guardian.
use vstd::prelude::*;

verus! {

/// Guardian errors.
#[derive(Debug, Clone, PartialEq, Eq)]
pub enum GuardianError {
    PlaybookNotFound(String),
    ExecutionFailed(String),
    /// At most this many runs per hour
    RateLimited(u32),
    ApprovalRequired,
}

/// One step of a playbook.
#[derive(Debug, Clone, PartialEq, Eq)]
pub enum PlaybookStep {
    Log { message: String },
    Command { cmd: String, args: Vec<String>, timeout_secs: u64, allow_failure: bool },
    SwitchAccount { program: String, strategy: String },
    Notify { channel: String, message: String },
    Wait { seconds: u64 },
}

/// State of a playbook run.
#[derive(Debug, Clone, Copy, PartialEq, Eq, Structural)]
pub enum RunStatus {
    Running,
    Success,
    Failed,
    Aborted,
    PendingApproval,
}

} // verus!
