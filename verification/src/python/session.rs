//! Request framing, reply classification and failure reporting for one
//! synchronous worker session.
use crate::python::error::{CleanupReport, CleanupState, WorkerError};
use crate::text::{append_bytes, append_decimal, append_str, decimal, str_equal, utf8_bytes};
use vstd::prelude::*;

verus! {

/// Information reported by the worker at startup, bounded by the incoming line.
#[derive(Debug, Clone)]
pub struct ReadyInfo {
    /// Worker-declared component name (not authenticated identity).
    pub name: String,
    /// Worker-declared input-skip policy.
    pub skip_policy: String,
}

/// Protocol storage high-water marks.
#[derive(Debug, Clone, Copy, PartialEq, Eq)]
pub struct IoStats {
    /// Maximum complete/partial receive bytes stored together.
    pub queued_bytes: usize,
    /// Maximum complete lines queued together.
    pub queued_messages: usize,
    /// Maximum encoded outbound line length.
    pub outgoing_bytes: usize,
}

/// The next request sequence number; sequences start at 1 and never wrap.
pub fn next_sequence(current: u64) -> (r: Result<u64, WorkerError>)
    ensures
        current < u64::MAX ==> r == Ok::<u64, WorkerError>((current + 1) as u64),
        current == u64::MAX ==> r == Err::<u64, WorkerError>(WorkerError::SequenceExhausted),
{
    match current.checked_add(1) {
        Some(n) => Ok(n),
        None => Err(WorkerError::SequenceExhausted),
    }
}

/// A handshake that runs out of time is reported as a handshake timeout.
pub fn handshake_error(error: WorkerError) -> (e: WorkerError)
    ensures
        error is Timeout ==> e == WorkerError::HandshakeTimeout,
        !(error is Timeout) ==> e == error,
{
    match error {
        WorkerError::Timeout => WorkerError::HandshakeTimeout,
        other => other,
    }
}

/// A heartbeat probe that runs out of time is reported as a heartbeat timeout;
/// an ordinary request keeps its error.
pub fn probe_error(is_probe: bool, error: WorkerError) -> (e: WorkerError)
    ensures
        is_probe && error is Timeout ==> e == WorkerError::HeartbeatTimeout,
        !(is_probe && error is Timeout) ==> e == error,
{
    if is_probe {
        match error {
            WorkerError::Timeout => WorkerError::HeartbeatTimeout,
            other => other,
        }
    } else {
        error
    }
}

/// Whether cleanup established normal direct-child reaping.
pub open spec fn cleanup_clean(report: CleanupReport) -> bool {
    report.state == CleanupState::Reaped && report.signal_error is None
}

/// Attach a cleanup outcome to an error unless cleanup was clean.
pub fn with_cleanup(error: WorkerError, report: CleanupReport) -> (e: WorkerError)
    ensures
        cleanup_clean(report) ==> e == error,
        !cleanup_clean(report) ==> e == (WorkerError::Cleanup { cause: Box::new(error), report }),
{
    let clean = match report.state {
        CleanupState::Reaped => report.signal_error.is_none(),
        _ => false,
    };
    if clean {
        error
    } else {
        WorkerError::Cleanup { cause: Box::new(error), report }
    }
}

/// The encoded outbound line: a request envelope around `payload` when a
/// sequence is given, else `payload` alone; newline-terminated.
pub open spec fn request_line(payload: Seq<u8>, sequence: Option<u64>) -> Seq<u8> {
    match sequence {
        Some(seq) => utf8_bytes("{\"kind\":\"request\",\"seq\":"@) + decimal(seq as nat) + utf8_bytes(
            ",\"payload\":"@,
        ) + payload + utf8_bytes("}\n"@),
        None => payload + utf8_bytes("\n"@),
    }
}

/// Frame an encoded JSON payload as one outbound line, refused before any
/// write when it would exceed `limit` bytes.
pub fn encode_line(payload: &[u8], sequence: Option<u64>, limit: usize) -> (r: Result<Vec<u8>, WorkerError>)
    ensures
        request_line(payload@, sequence).len() <= limit ==> (r matches Ok(line) && line@
            == request_line(payload@, sequence)),
        request_line(payload@, sequence).len() > limit ==> r == Err::<Vec<u8>, WorkerError>(
            WorkerError::OutgoingTooLarge { limit },
        ),
{
    let mut line: Vec<u8> = Vec::new();
    match sequence {
        Some(seq) => {
            append_str(&mut line, "{\"kind\":\"request\",\"seq\":");
            append_decimal(&mut line, seq);
            append_str(&mut line, ",\"payload\":");
            append_bytes(&mut line, payload);
            append_str(&mut line, "}\n");
        },
        None => {
            append_bytes(&mut line, payload);
            append_str(&mut line, "\n");
        },
    }
    proof {
        assert(line@ =~= request_line(payload@, sequence));
    }
    if line.len() > limit {
        return Err(WorkerError::OutgoingTooLarge { limit });
    }
    Ok(line)
}

/// What a received protocol object means for the outstanding operation.
#[derive(Debug, Clone, Copy, PartialEq, Eq)]
pub enum ReplyAction {
    /// Unrelated or stale traffic; keep waiting under the same deadline.
    Ignore,
    /// The matching heartbeat reply.
    Pong,
    /// The matching application response.
    Response,
    /// The matching application error report.
    Remote,
}

/// The meaning of a reply with sequence `seq` and kind `kind` while operation
/// `sequence` is outstanding (`expects_payload` for requests, not probes).
pub open spec fn reply_action(expects_payload: bool, sequence: u64, seq: Option<u64>, kind: Option<Seq<char>>) -> ReplyAction {
    if seq != Some(sequence) {
        ReplyAction::Ignore
    } else if !expects_payload && kind == Some("pong"@) {
        ReplyAction::Pong
    } else if expects_payload && kind == Some("response"@) {
        ReplyAction::Response
    } else if expects_payload && kind == Some("error"@) {
        ReplyAction::Remote
    } else {
        ReplyAction::Ignore
    }
}

/// The view of an optional string.
pub open spec fn opt_view(kind: Option<&str>) -> Option<Seq<char>> {
    match kind {
        Some(k) => Some(k@),
        None => None,
    }
}

/// Classify a received protocol object.
pub fn classify_reply(expects_payload: bool, sequence: u64, seq: Option<u64>, kind: Option<&str>) -> (a: ReplyAction)
    ensures
        a == reply_action(expects_payload, sequence, seq, opt_view(kind)),
{
    let matches = match seq {
        Some(s) => s == sequence,
        None => false,
    };
    if !matches {
        return ReplyAction::Ignore;
    }
    match kind {
        None => ReplyAction::Ignore,
        Some(k) => {
            if !expects_payload && str_equal(k, "pong") {
                ReplyAction::Pong
            } else if expects_payload && str_equal(k, "response") {
                ReplyAction::Response
            } else if expects_payload && str_equal(k, "error") {
                ReplyAction::Remote
            } else {
                ReplyAction::Ignore
            }
        },
    }
}

/// Whether a queued object is a reply to a request not yet issued.
pub open spec fn premature_reply(current: u64, seq: Option<u64>, kind: Option<Seq<char>>) -> bool {
    &&& (kind == Some("response"@) || kind == Some("error"@) || kind == Some("pong"@))
    &&& seq matches Some(s) && s > current
}

/// Traffic drained before a new request may not answer a request that was
/// never issued.
pub fn check_drained(current: u64, seq: Option<u64>, kind: Option<&str>) -> (r: Result<(), WorkerError>)
    ensures
        !premature_reply(current, seq, opt_view(kind)) ==> r is Ok,
        premature_reply(current, seq, opt_view(kind)) ==> (r matches Err(WorkerError::Protocol(m))
            && m@ == "reply preceded its request"@),
{
    let reply = match kind {
        None => false,
        Some(k) => str_equal(k, "response") || str_equal(k, "error") || str_equal(k, "pong"),
    };
    let future = match seq {
        Some(s) => s > current,
        None => false,
    };
    if reply && future {
        return Err(WorkerError::Protocol("reply preceded its request".to_owned()));
    }
    Ok(())
}

/// The worker's ready handshake, from its `kind`, `name` and `skipPolicy`
/// string fields (`None` where a field is absent or not a string).
pub fn ready_handshake(kind: Option<&str>, name: Option<&str>, skip_policy: Option<&str>) -> (r: Result<
    ReadyInfo,
    WorkerError,
>)
    ensures
        opt_view(kind) != Some("ready"@) ==> (r matches Err(WorkerError::Protocol(m)) && m@
            == "expected ready handshake"@),
        opt_view(kind) == Some("ready"@) && name is None ==> (r matches Err(WorkerError::Protocol(m)) && m@
            == "ready.name must be a string"@),
        opt_view(kind) == Some("ready"@) && name is Some && skip_policy is None ==> (r matches Err(
            WorkerError::Protocol(m),
        ) && m@ == "ready.skipPolicy must be a string"@),
        opt_view(kind) == Some("ready"@) && name is Some && skip_policy is Some ==> (r matches Ok(info)
            && info.name@ == name->0@ && info.skip_policy@ == skip_policy->0@),
{
    let ready = match kind {
        Some(k) => str_equal(k, "ready"),
        None => false,
    };
    if !ready {
        return Err(WorkerError::Protocol("expected ready handshake".to_owned()));
    }
    let name = match name {
        Some(n) => n,
        None => return Err(WorkerError::Protocol("ready.name must be a string".to_owned())),
    };
    let skip_policy = match skip_policy {
        Some(p) => p,
        None => return Err(WorkerError::Protocol("ready.skipPolicy must be a string".to_owned())),
    };
    Ok(ReadyInfo { name: name.to_owned(), skip_policy: skip_policy.to_owned() })
}

/// What supervision does next.
#[derive(Debug, Clone, Copy, PartialEq, Eq)]
pub enum SupervisorStep {
    /// Supervision was shut down: the worker is unavailable.
    Stopped,
    /// Probe the running worker's heartbeat.
    Heartbeat,
    /// Check the running worker's session.
    Session,
    /// Retire any failed worker and launch a replacement; the restarts then used.
    Replace(u32),
    /// No restart remains in the budget.
    Exhausted {
        /// Restarts used.
        used: u32,
        /// Maximum restarts.
        max: u32,
    },
}

/// The next supervision step: a stopped supervisor refuses; a usable worker
/// is probed (when polling) or its session checked; otherwise a replacement
/// is launched while restarts remain, failed launches included.
pub open spec fn supervisor_step(stopped: bool, available: bool, polling: bool, used: u32, max: u32) -> SupervisorStep {
    if stopped {
        SupervisorStep::Stopped
    } else if available {
        if polling {
            SupervisorStep::Heartbeat
        } else {
            SupervisorStep::Session
        }
    } else if used < max {
        SupervisorStep::Replace((used + 1) as u32)
    } else {
        SupervisorStep::Exhausted { used, max }
    }
}

/// Decide the next supervision step.
pub fn next_supervision(stopped: bool, available: bool, polling: bool, used: u32, max: u32) -> (s: SupervisorStep)
    ensures
        s == supervisor_step(stopped, available, polling, used, max),
{
    if stopped {
        SupervisorStep::Stopped
    } else if available {
        if polling {
            SupervisorStep::Heartbeat
        } else {
            SupervisorStep::Session
        }
    } else {
        match charge_restart(used, max) {
            Ok(n) => SupervisorStep::Replace(n),
            Err(_) => SupervisorStep::Exhausted { used, max },
        }
    }
}

/// Supervision stays within its restart budget: from any count within the
/// budget, a replacement is launched only with a restart to spare and leaves
/// the count within the budget; with none to spare it gives up, and a stopped
/// or healthy supervisor never launches.
pub proof fn law_restarts_within_budget(stopped: bool, available: bool, polling: bool, used: u32, max: u32)
    requires
        used <= max,
    ensures
        supervisor_step(stopped, available, polling, used, max) matches SupervisorStep::Replace(n) ==> n
            == used + 1 && n <= max && !stopped && !available,
        !stopped && !available && used == max ==> supervisor_step(stopped, available, polling, used, max)
            == (SupervisorStep::Exhausted { used, max }),
{
}

/// Spend one restart from a budget of `max`, or refuse when none remain.
pub fn charge_restart(used: u32, max: u32) -> (r: Result<u32, WorkerError>)
    ensures
        used < max ==> r == Ok::<u32, WorkerError>((used + 1) as u32),
        used >= max ==> r == Err::<u32, WorkerError>(
            WorkerError::RestartBudgetExhausted { used, max },
        ),
{
    if used >= max {
        return Err(WorkerError::RestartBudgetExhausted { used, max });
    }
    Ok(used + 1)
}

} // verus!
