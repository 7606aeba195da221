//! Typed Python-worker errors and cleanup outcomes.
use crate::python::resource::ResourceStage;
use vstd::prelude::*;

verus! {

/// Result of the one bounded cleanup attempt for a worker.
#[derive(Debug, Clone, Copy, PartialEq, Eq)]
pub enum CleanupState {
    /// The direct child was reaped; its group received the cleanup signal.
    Reaped,
    /// The direct child occupies a bounded deferred-reaper slot.
    Deferred,
    /// An external reaper took ownership; no potentially reused PID was signalled.
    OwnershipLost,
    /// The reaper failed; the admission slot is permanently withheld.
    ReaperUnavailable,
}

/// Auditable cleanup result. Group signalling is not proof that all descendants
/// have exited.
#[derive(Debug, Clone, Copy, PartialEq, Eq)]
pub struct CleanupReport {
    /// Direct child process ID, for diagnosis.
    pub pid: u32,
    /// Reaping outcome.
    pub state: CleanupState,
    /// OS error from group signalling, if any (ESRCH means already gone).
    pub signal_error: Option<i32>,
}

/// Errors from launching, supervising or exchanging with a Python worker.
#[derive(Debug)]
pub enum WorkerError {
    /// Invalid immutable I/O or timeout configuration.
    InvalidConfig(&'static str),
    /// Bounded stdio is implemented only on Linux GNU/musl.
    UnsupportedPlatform,
    /// The live/deferred process slots are exhausted or admission is busy.
    ProcessCapacity,
    /// Another reaper consumed a child owned by this library.
    ProcessOwnershipLost,
    /// The stdout stream closed while the direct child was still alive.
    StdoutClosed,
    /// A terminally failed or shut-down worker cannot accept more requests.
    Unavailable,
    /// The synchronous sequence space cannot wrap.
    SequenceExhausted,
    /// Incoming line exceeded the validated byte limit.
    IncomingTooLarge {
        /// Inclusive newline-counted limit.
        limit: usize,
    },
    /// Outgoing line exceeded the validated byte limit before any write.
    OutgoingTooLarge {
        /// Inclusive newline-counted limit.
        limit: usize,
    },
    /// Complete and partial incoming lines exceeded the storage budget.
    QueueBytesExceeded {
        /// Maximum queued bytes.
        limit: usize,
    },
    /// An incoming burst exceeded the complete-message queue budget.
    QueueMessagesExceeded {
        /// Maximum complete queued lines.
        limit: usize,
    },
    /// Cleanup could not establish normal direct-child reaping; the original
    /// failure and the bounded cleanup outcome are kept together.
    Cleanup {
        /// Original failure.
        cause: Box<WorkerError>,
        /// Cleanup result.
        report: CleanupReport,
    },
    /// The worker process could not be launched.
    Launch(String),
    /// The worker did not complete its startup handshake in time.
    HandshakeTimeout,
    /// The worker process exited unexpectedly; a recoverable error.
    WorkerExited {
        /// A description of the exit status.
        status: String,
    },
    /// A request exceeded its timeout while the worker was still running.
    Timeout,
    /// The worker sent a message that did not match the protocol.
    Protocol(String),
    /// The worker reported an application error while handling a request.
    Remote(String),
    /// The restart budget was exhausted; the worker cannot be recovered.
    RestartBudgetExhausted {
        /// Restarts used.
        used: u32,
        /// Maximum restarts.
        max: u32,
    },
    /// An I/O error occurred communicating with the worker.
    Io(String),
    /// No matching pong completed before the anchored heartbeat deadline.
    HeartbeatTimeout,
    /// Supervision resumed at or after responsiveness expiry.
    HeartbeatExpired,
    /// The monotonic clock regressed or deadline arithmetic overflowed.
    SupervisionClock,
    /// The trusted launcher could not install or confirm the resource policy.
    ResourceSetup {
        /// Failing stage.
        stage: ResourceStage,
        /// Operating-system error number, if any.
        errno: Option<i32>,
    },
}

} // verus!
