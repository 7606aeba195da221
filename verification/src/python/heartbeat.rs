//! Constant-size, supervisor-owned monotonic responsiveness state.
use crate::python::config::HeartbeatPolicy;
use crate::python::error::WorkerError;
use crate::python::time::Instant;
use vstd::prelude::*;

verus! {

/// Health reported for a supervised worker.
#[derive(Debug, Clone, Copy, PartialEq, Eq)]
pub enum HealthState {
    /// No timely reply has confirmed responsiveness yet.
    Unknown,
    /// Confirmed and not yet owing a probe.
    Healthy,
    /// Confirmed, but a probe is due.
    Degraded,
    /// Failed, expired or not running.
    Unavailable,
}

/// Latched session failure category. It survives health queries and shutdown;
/// a replacement owns fresh state.
#[derive(Debug, Clone, Copy, PartialEq, Eq)]
pub enum WorkerFailure {
    /// No matching pong completed before the anchored heartbeat deadline.
    HeartbeatTimeout,
    /// Supervision resumed at or after responsiveness expiry.
    HeartbeatExpired,
    /// Monotonic observation regressed or checked deadline arithmetic overflowed.
    Clock,
    /// An ordinary request exhausted its total I/O budget or health window.
    RequestTimeout,
    /// Protocol, size, or queue validation failed.
    Protocol,
    /// Child exit or live-child stdout closure.
    Exited,
    /// Pipe, process ownership, or other operating-system failure.
    Io,
    /// No more sequence numbers can be issued in this session.
    SequenceExhausted,
    /// Explicit shutdown ended an otherwise usable session.
    Shutdown,
    /// A replacement could not launch or complete its handshake.
    Launch,
}

/// The failure category of an error; a cleanup failure is classified by its cause.
pub open spec fn failure_of(error: WorkerError) -> WorkerFailure
    decreases error,
{
    match error {
        WorkerError::Cleanup { cause, .. } => failure_of(*cause),
        WorkerError::HeartbeatTimeout => WorkerFailure::HeartbeatTimeout,
        WorkerError::HeartbeatExpired => WorkerFailure::HeartbeatExpired,
        WorkerError::SupervisionClock => WorkerFailure::Clock,
        WorkerError::Timeout => WorkerFailure::RequestTimeout,
        WorkerError::SequenceExhausted => WorkerFailure::SequenceExhausted,
        WorkerError::WorkerExited { .. } => WorkerFailure::Exited,
        WorkerError::StdoutClosed => WorkerFailure::Exited,
        WorkerError::Protocol(_) => WorkerFailure::Protocol,
        WorkerError::IncomingTooLarge { .. } => WorkerFailure::Protocol,
        WorkerError::OutgoingTooLarge { .. } => WorkerFailure::Protocol,
        WorkerError::QueueBytesExceeded { .. } => WorkerFailure::Protocol,
        WorkerError::QueueMessagesExceeded { .. } => WorkerFailure::Protocol,
        _ => WorkerFailure::Io,
    }
}

impl WorkerFailure {
    /// Classify an error as the session failure it latches.
    pub fn from_error(error: &WorkerError) -> (f: WorkerFailure)
        ensures
            f == failure_of(*error),
        decreases error,
    {
        match error {
            WorkerError::Cleanup { cause, .. } => WorkerFailure::from_error(cause),
            WorkerError::HeartbeatTimeout => WorkerFailure::HeartbeatTimeout,
            WorkerError::HeartbeatExpired => WorkerFailure::HeartbeatExpired,
            WorkerError::SupervisionClock => WorkerFailure::Clock,
            WorkerError::Timeout => WorkerFailure::RequestTimeout,
            WorkerError::SequenceExhausted => WorkerFailure::SequenceExhausted,
            WorkerError::WorkerExited { .. } => WorkerFailure::Exited,
            WorkerError::StdoutClosed => WorkerFailure::Exited,
            WorkerError::Protocol(_) => WorkerFailure::Protocol,
            WorkerError::IncomingTooLarge { .. } => WorkerFailure::Protocol,
            WorkerError::OutgoingTooLarge { .. } => WorkerFailure::Protocol,
            WorkerError::QueueBytesExceeded { .. } => WorkerFailure::Protocol,
            WorkerError::QueueMessagesExceeded { .. } => WorkerFailure::Protocol,
            _ => WorkerFailure::Io,
        }
    }
}

/// The abstract responsiveness state, times in nanoseconds.
pub struct HeartbeatView {
    /// Policy interval.
    pub interval: nat,
    /// Policy response window.
    pub response: nat,
    /// Latest accepted observation.
    pub observed: nat,
    /// Next probe due time.
    pub due: nat,
    /// Responsiveness expiry; equality is expired.
    pub expires: nat,
    /// Whether a timely reply has confirmed this session.
    pub confirmed: bool,
    /// The first terminal failure, if any.
    pub failure: Option<WorkerFailure>,
}

/// Fresh state anchored at `now`, or `None` when a deadline is unrepresentable.
pub open spec fn heartbeat_start(interval: nat, response: nat, now: nat) -> Option<HeartbeatView> {
    if now + interval + response <= u64::MAX {
        Some(
            HeartbeatView {
                interval,
                response,
                observed: now,
                due: now + interval,
                expires: now + interval + response,
                confirmed: false,
                failure: None,
            },
        )
    } else {
        None
    }
}

/// The health of an unexpired, unfailed session observed at `now`.
pub open spec fn health_at(h: HeartbeatView, now: nat) -> HealthState {
    if !h.confirmed {
        HealthState::Unknown
    } else if now >= h.due {
        HealthState::Degraded
    } else {
        HealthState::Healthy
    }
}

/// Latch a failure unless one is already recorded.
pub open spec fn fail_step(h: HeartbeatView, reason: WorkerFailure) -> HeartbeatView {
    if h.failure is Some {
        h
    } else {
        HeartbeatView { failure: Some(reason), ..h }
    }
}

/// One observation at `now`: the new state and the reported health or error.
pub open spec fn observe_step(h: HeartbeatView, now: nat) -> (HeartbeatView, Result<HealthState, WorkerError>) {
    if h.failure is Some {
        (h, Err(WorkerError::Unavailable))
    } else if now < h.observed {
        (fail_step(h, WorkerFailure::Clock), Err(WorkerError::SupervisionClock))
    } else if now >= h.expires {
        (
            HeartbeatView { observed: now, failure: Some(WorkerFailure::HeartbeatExpired), ..h },
            Err(WorkerError::HeartbeatExpired),
        )
    } else {
        (HeartbeatView { observed: now, ..h }, Ok(health_at(h, now)))
    }
}

/// A confirmation at `now`: observe, then re-anchor a confirmed session at `now`.
pub open spec fn confirm_step(h: HeartbeatView, now: nat) -> (HeartbeatView, Result<(), WorkerError>) {
    let (o, r) = observe_step(h, now);
    match r {
        Err(e) => (o, Err(e)),
        Ok(_) => match heartbeat_start(h.interval, h.response, now) {
            None => (fail_step(o, WorkerFailure::Clock), Err(WorkerError::SupervisionClock)),
            Some(n) => (HeartbeatView { confirmed: true, ..n }, Ok(())),
        },
    }
}

/// Supervisor-owned responsiveness state for one worker session.
pub struct Heartbeat {
    policy: HeartbeatPolicy,
    observed: Instant,
    due: Instant,
    expires: Instant,
    confirmed: bool,
    failure: Option<WorkerFailure>,
}

impl View for Heartbeat {
    type V = HeartbeatView;

    closed spec fn view(&self) -> HeartbeatView {
        HeartbeatView {
            interval: self.policy@.0,
            response: self.policy@.1,
            observed: self.observed@,
            due: self.due@,
            expires: self.expires@,
            confirmed: self.confirmed,
            failure: self.failure,
        }
    }
}

impl Heartbeat {
    /// Fresh unconfirmed state anchored at `now`.
    pub fn new(policy: HeartbeatPolicy, now: Instant) -> (r: Result<Heartbeat, WorkerError>)
        ensures
            match heartbeat_start(policy@.0, policy@.1, now@) {
                Some(v) => r matches Ok(h) && h@ == v,
                None => r == Err::<Heartbeat, WorkerError>(WorkerError::SupervisionClock),
            },
    {
        let due = match now.checked_add(policy.interval()) {
            Some(t) => t,
            None => return Err(WorkerError::SupervisionClock),
        };
        let expires = match due.checked_add(policy.response()) {
            Some(t) => t,
            None => return Err(WorkerError::SupervisionClock),
        };
        Ok(Heartbeat { policy, observed: now, due, expires, confirmed: false, failure: None })
    }

    /// Observe responsiveness at `now`; regression and expiry latch failures.
    pub fn observe(&mut self, now: Instant) -> (r: Result<HealthState, WorkerError>)
        ensures
            (final(self)@, r) == observe_step(old(self)@, now@),
    {
        if self.failure.is_some() {
            return Err(WorkerError::Unavailable);
        }
        if now.before(self.observed) {
            self.fail(WorkerFailure::Clock);
            return Err(WorkerError::SupervisionClock);
        }
        self.observed = now;
        if !now.before(self.expires) {
            self.fail(WorkerFailure::HeartbeatExpired);
            return Err(WorkerError::HeartbeatExpired);
        }
        if !self.confirmed {
            Ok(HealthState::Unknown)
        } else if !now.before(self.due) {
            Ok(HealthState::Degraded)
        } else {
            Ok(HealthState::Healthy)
        }
    }

    /// Record a timely reply at `now`, re-anchoring the due and expiry times.
    pub fn confirm(&mut self, now: Instant) -> (r: Result<(), WorkerError>)
        ensures
            (final(self)@, r) == confirm_step(old(self)@, now@),
    {
        match self.observe(now) {
            Err(e) => return Err(e),
            Ok(_) => {},
        }
        match Heartbeat::new(self.policy, now) {
            Err(e) => {
                self.fail(WorkerFailure::Clock);
                Err(e)
            },
            Ok(next) => {
                *self = next;
                self.confirmed = true;
                Ok(())
            },
        }
    }

    /// Next probe due time.
    pub fn due(&self) -> (t: Instant)
        ensures
            t@ == self@.due,
    {
        self.due
    }

    /// Responsiveness expiry.
    pub fn expires(&self) -> (t: Instant)
        ensures
            t@ == self@.expires,
    {
        self.expires
    }

    /// Latch `reason` unless a failure is already recorded.
    pub fn fail(&mut self, reason: WorkerFailure)
        ensures
            final(self)@ == fail_step(old(self)@, reason),
    {
        if self.failure.is_none() {
            self.failure = Some(reason);
        }
    }

    /// The first terminal failure, if any.
    pub fn failure(&self) -> (f: Option<WorkerFailure>)
        ensures
            f == self@.failure,
    {
        self.failure
    }
}

/// A latched failure is permanent: no observation, confirmation or later
/// failure replaces it, and every observation of a failed session reports
/// the session unavailable without changing it.
pub proof fn failure_latches(h: HeartbeatView, now: nat, reason: WorkerFailure)
    requires
        h.failure is Some,
    ensures
        observe_step(h, now) == (h, Err::<HealthState, WorkerError>(WorkerError::Unavailable)),
        confirm_step(h, now) == (h, Err::<(), WorkerError>(WorkerError::Unavailable)),
        fail_step(h, reason) == h,
{
}

/// Every failed observation or confirmation leaves a latched failure.
pub proof fn errors_latch(h: HeartbeatView, now: nat)
    ensures
        observe_step(h, now).1 is Err ==> observe_step(h, now).0.failure is Some,
        confirm_step(h, now).1 is Err ==> confirm_step(h, now).0.failure is Some,
{
}

/// A fresh session is `Unknown` from its anchor until expiry, then expired;
/// an earlier observation is a clock regression.
pub proof fn fresh_session_is_unknown(interval: nat, response: nat, start: nat, now: nat)
    requires
        heartbeat_start(interval, response, start) is Some,
    ensures
        ({
            let h = heartbeat_start(interval, response, start)->0;
            &&& start <= now < start + interval + response ==> observe_step(h, now).1 == Ok::<
                HealthState,
                WorkerError,
            >(HealthState::Unknown)
            &&& now >= start + interval + response ==> observe_step(h, now).1 == Err::<
                HealthState,
                WorkerError,
            >(WorkerError::HeartbeatExpired)
            &&& now < start ==> observe_step(h, now).1 == Err::<HealthState, WorkerError>(
                WorkerError::SupervisionClock,
            )
        }),
{
}

/// After a successful confirmation at `now` the session is `Healthy` until
/// `now + interval`, `Degraded` until `now + interval + response`, and expired
/// from then on.
pub proof fn confirmation_windows(h: HeartbeatView, now: nat, later: nat)
    requires
        confirm_step(h, now).1 is Ok,
        now <= later,
    ensures
        ({
            let c = confirm_step(h, now).0;
            &&& c.due == now + h.interval
            &&& c.expires == now + h.interval + h.response
            &&& later < now + h.interval ==> observe_step(c, later).1 == Ok::<
                HealthState,
                WorkerError,
            >(HealthState::Healthy)
            &&& now + h.interval <= later < now + h.interval + h.response ==> observe_step(
                c,
                later,
            ).1 == Ok::<HealthState, WorkerError>(HealthState::Degraded)
            &&& now + h.interval + h.response <= later ==> observe_step(c, later).1 == Err::<
                HealthState,
                WorkerError,
            >(WorkerError::HeartbeatExpired)
        }),
{
}

} // verus!
