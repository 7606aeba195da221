//! Validated worker I/O limits, operation budgets and heartbeat policy.
use crate::python::error::WorkerError;
use crate::python::time::Duration;
use vstd::prelude::*;

verus! {

/// Nanoseconds in one millisecond.
pub const NANOS_PER_MILLI: u64 = 1_000_000;
/// Nanoseconds in one second.
pub const NANOS_PER_SEC: u64 = 1_000_000_000;

/// Whether four line/queue limits are accepted: line limits 64 bytes..=1 MiB,
/// receive storage one incoming line..=4 MiB, complete messages 1..=128.
pub open spec fn io_limits_valid(incoming: usize, outgoing: usize, queued_bytes: usize, queued_messages: usize) -> bool {
    &&& 64 <= incoming <= 1_048_576
    &&& 64 <= outgoing <= 1_048_576
    &&& incoming <= queued_bytes <= 4_194_304
    &&& 1 <= queued_messages <= 128
}

/// The four limits of an [`IoLimits`], in constructor order.
pub struct IoLimitsView {
    /// Maximum incoming line bytes, newline included.
    pub incoming: usize,
    /// Maximum outgoing line bytes, newline included.
    pub outgoing: usize,
    /// Maximum receive storage.
    pub queued_bytes: usize,
    /// Maximum complete queued lines.
    pub queued_messages: usize,
}

/// Immutable wire/storage limits. Line sizes include the terminating newline.
/// One request is outstanding at a time; there is no outbound request queue.
#[derive(Debug, Clone, Copy)]
pub struct IoLimits {
    incoming_bytes: usize,
    outgoing_bytes: usize,
    queued_bytes: usize,
    queued_messages: usize,
}

impl View for IoLimits {
    type V = IoLimitsView;

    closed spec fn view(&self) -> IoLimitsView {
        IoLimitsView {
            incoming: self.incoming_bytes,
            outgoing: self.outgoing_bytes,
            queued_bytes: self.queued_bytes,
            queued_messages: self.queued_messages,
        }
    }
}

impl IoLimits {
    /// Whether these limits are accepted; every constructed value is.
    pub open spec fn valid(self) -> bool {
        io_limits_valid(self@.incoming, self@.outgoing, self@.queued_bytes, self@.queued_messages)
    }

    /// Validate line limits (64 bytes..=1 MiB), receive storage (one incoming
    /// line..=4 MiB) and complete queued messages (1..=128).
    pub fn new(
        incoming_bytes: usize,
        outgoing_bytes: usize,
        queued_bytes: usize,
        queued_messages: usize,
    ) -> (r: Result<IoLimits, WorkerError>)
        ensures
            io_limits_valid(incoming_bytes, outgoing_bytes, queued_bytes, queued_messages) ==> (
            r matches Ok(l) && l@ == (IoLimitsView {
                incoming: incoming_bytes,
                outgoing: outgoing_bytes,
                queued_bytes,
                queued_messages,
            })),
            !io_limits_valid(incoming_bytes, outgoing_bytes, queued_bytes, queued_messages) ==> r
                == Err::<IoLimits, WorkerError>(
                WorkerError::InvalidConfig("invalid line or queue limits"),
            ),
    {
        if incoming_bytes < 64 || incoming_bytes > 1_048_576 || outgoing_bytes < 64
            || outgoing_bytes > 1_048_576 || queued_bytes < incoming_bytes || queued_bytes
            > 4_194_304 || queued_messages < 1 || queued_messages > 128
        {
            return Err(WorkerError::InvalidConfig("invalid line or queue limits"));
        }
        Ok(IoLimits { incoming_bytes, outgoing_bytes, queued_bytes, queued_messages })
    }

    /// Maximum incoming JSON line bytes, including newline.
    pub fn incoming_bytes(self) -> (n: usize)
        ensures
            n == self@.incoming,
    {
        self.incoming_bytes
    }

    /// Maximum outgoing JSON line bytes, including newline.
    pub fn outgoing_bytes(self) -> (n: usize)
        ensures
            n == self@.outgoing,
    {
        self.outgoing_bytes
    }

    /// Maximum receive storage, including complete lines and the partial line.
    pub fn queued_bytes(self) -> (n: usize)
        ensures
            n == self@.queued_bytes,
    {
        self.queued_bytes
    }

    /// Maximum complete lines waiting in receive storage.
    pub fn queued_messages(self) -> (n: usize)
        ensures
            n == self@.queued_messages,
    {
        self.queued_messages
    }

    /// Exactly one synchronous request; concurrent access requires exclusive ownership.
    pub fn outstanding_requests(self) -> (n: usize)
        ensures
            n == 1,
    {
        1
    }
}

impl Default for IoLimits {
    /// 64 KiB lines, 256 KiB of receive storage and 16 queued messages.
    fn default() -> (l: IoLimits)
        ensures
            l@ == (IoLimitsView {
                incoming: 65_536,
                outgoing: 65_536,
                queued_bytes: 262_144,
                queued_messages: 16,
            }),
            l.valid(),
    {
        IoLimits {
            incoming_bytes: 65_536,
            outgoing_bytes: 65_536,
            queued_bytes: 262_144,
            queued_messages: 16,
        }
    }
}

/// Whether a total budget is accepted beside a cleanup reserve: greater than
/// the reserve and at most 60 seconds.
pub open spec fn total_valid(total: nat, cleanup: nat) -> bool {
    cleanup < total <= 60 * NANOS_PER_SEC
}

/// Whether four budgets are accepted: a nonzero cleanup reserve of at most one
/// second, and three totals each above it and at most 60 seconds.
pub open spec fn timeouts_valid(handshake: nat, request: nat, shutdown: nat, cleanup: nat) -> bool {
    &&& 0 < cleanup <= NANOS_PER_SEC
    &&& total_valid(handshake, cleanup)
    &&& total_valid(request, cleanup)
    &&& total_valid(shutdown, cleanup)
}

/// Total operation timeouts and cleanup reserve, all immutable and validated.
#[derive(Debug, Clone, Copy)]
pub struct Timeouts {
    handshake: Duration,
    request: Duration,
    shutdown: Duration,
    cleanup: Duration,
}

impl View for Timeouts {
    type V = (nat, nat, nat, nat);

    closed spec fn view(&self) -> (nat, nat, nat, nat) {
        (self.handshake@, self.request@, self.shutdown@, self.cleanup@)
    }
}

impl Timeouts {
    /// Whether these budgets are accepted; every constructed value is.
    pub open spec fn valid(self) -> bool {
        timeouts_valid(self@.0, self@.1, self@.2, self@.3)
    }

    /// Each total must be greater than the nonzero cleanup reserve and at most
    /// 60 seconds. Cleanup is at most one second. No timeout restarts mid-operation.
    pub fn new(handshake: Duration, request: Duration, shutdown: Duration, cleanup: Duration) -> (r:
        Result<Timeouts, WorkerError>)
        ensures
            timeouts_valid(handshake@, request@, shutdown@, cleanup@) ==> (r matches Ok(t) && t@ == (
            handshake@, request@, shutdown@, cleanup@)),
            !timeouts_valid(handshake@, request@, shutdown@, cleanup@) ==> r == Err::<
                Timeouts,
                WorkerError,
            >(WorkerError::InvalidConfig("invalid total timeout or cleanup reserve")),
    {
        let c = cleanup.as_nanos();
        let limit: u128 = 60 * NANOS_PER_SEC as u128;
        let h = handshake.as_nanos();
        let q = request.as_nanos();
        let s = shutdown.as_nanos();
        if c == 0 || c > NANOS_PER_SEC as u128 || h <= c || h > limit || q <= c || q > limit || s <= c
            || s > limit
        {
            return Err(WorkerError::InvalidConfig("invalid total timeout or cleanup reserve"));
        }
        Ok(Timeouts { handshake, request, shutdown, cleanup })
    }

    /// Total launch/handshake operation budget, including cleanup.
    pub fn handshake(self) -> (d: Duration)
        ensures
            d@ == self@.0,
    {
        self.handshake
    }

    /// Total request operation budget, including serialization and cleanup.
    pub fn request(self) -> (d: Duration)
        ensures
            d@ == self@.1,
    {
        self.request
    }

    /// Total explicit graceful-shutdown budget, including cleanup.
    pub fn shutdown(self) -> (d: Duration)
        ensures
            d@ == self@.2,
    {
        self.shutdown
    }

    /// Reserved cleanup budget; also the entire drop budget.
    pub fn cleanup(self) -> (d: Duration)
        ensures
            d@ == self@.3,
    {
        self.cleanup
    }

    /// The same budgets with another total request timeout, revalidated.
    pub fn with_request(self, request: Duration) -> (r: Result<Timeouts, WorkerError>)
        ensures
            timeouts_valid(self@.0, request@, self@.2, self@.3) ==> (r matches Ok(t) && t@ == (
            self@.0, request@, self@.2, self@.3)),
            !timeouts_valid(self@.0, request@, self@.2, self@.3) ==> r == Err::<
                Timeouts,
                WorkerError,
            >(WorkerError::InvalidConfig("invalid total timeout or cleanup reserve")),
    {
        Timeouts::new(self.handshake, request, self.shutdown, self.cleanup)
    }
}

impl Default for Timeouts {
    /// Ten-second handshake and request totals, a 500 ms shutdown total and a
    /// 50 ms cleanup reserve.
    fn default() -> (t: Timeouts)
        ensures
            t@ == (10 * NANOS_PER_SEC as nat, 10 * NANOS_PER_SEC as nat, 500 * NANOS_PER_MILLI as nat, 50
                * NANOS_PER_MILLI as nat),
            t.valid(),
    {
        Timeouts {
            handshake: Duration::from_secs(10),
            request: Duration::from_secs(10),
            shutdown: Duration::from_millis(500),
            cleanup: Duration::from_millis(50),
        }
    }
}

/// Whether a heartbeat interval and response window are accepted: each from
/// one millisecond to 60 seconds.
pub open spec fn heartbeat_valid(interval: nat, response: nat) -> bool {
    &&& NANOS_PER_MILLI <= interval <= 60 * NANOS_PER_SEC
    &&& NANOS_PER_MILLI <= response <= 60 * NANOS_PER_SEC
}

/// Probe cadence and response window for worker responsiveness.
#[derive(Debug, Clone, Copy)]
pub struct HeartbeatPolicy {
    interval: Duration,
    response: Duration,
}

impl View for HeartbeatPolicy {
    type V = (nat, nat);

    closed spec fn view(&self) -> (nat, nat) {
        (self.interval@, self.response@)
    }
}

impl HeartbeatPolicy {
    /// Whether this policy is accepted; every constructed value is.
    pub open spec fn valid(self) -> bool {
        heartbeat_valid(self@.0, self@.1)
    }

    /// Validate an interval and response window, each 1 ms..=60 s.
    pub fn new(interval: Duration, response: Duration) -> (r: Result<HeartbeatPolicy, WorkerError>)
        ensures
            heartbeat_valid(interval@, response@) ==> (r matches Ok(p) && p@ == (interval@, response@)),
            !heartbeat_valid(interval@, response@) ==> r == Err::<HeartbeatPolicy, WorkerError>(
                WorkerError::InvalidConfig("invalid heartbeat interval or response window"),
            ),
    {
        let i = interval.as_nanos();
        let w = response.as_nanos();
        let limit: u128 = 60 * NANOS_PER_SEC as u128;
        let least: u128 = NANOS_PER_MILLI as u128;
        if i < least || i > limit || w < least || w > limit {
            return Err(WorkerError::InvalidConfig("invalid heartbeat interval or response window"));
        }
        Ok(HeartbeatPolicy { interval, response })
    }

    /// Time from a confirmation to the next due probe.
    pub fn interval(self) -> (d: Duration)
        ensures
            d@ == self@.0,
    {
        self.interval
    }

    /// Time after the due point before responsiveness expires.
    pub fn response(self) -> (d: Duration)
        ensures
            d@ == self@.1,
    {
        self.response
    }
}

impl Default for HeartbeatPolicy {
    /// One-second interval and one-second response window.
    fn default() -> (p: HeartbeatPolicy)
        ensures
            p@ == (NANOS_PER_SEC as nat, NANOS_PER_SEC as nat),
            p.valid(),
    {
        HeartbeatPolicy { interval: Duration::from_secs(1), response: Duration::from_secs(1) }
    }
}

/// Structured startup configuration handed to a worker (a JSON value).
#[verifier::external_type_specification]
#[verifier::external_body]
pub struct ExJsonValue(serde_json::Value);

/// Launch configuration. Operational invariants can only be changed through
/// validated value types. Launch arguments and the executable are trusted input.
#[derive(Debug, Clone)]
pub struct WorkerConfig {
    /// Interpreter executable.
    pub interpreter: String,
    /// Worker script.
    pub script: String,
    /// Trusted script arguments, in order.
    pub args: Vec<String>,
    /// Python import directories, in order.
    pub python_path: Vec<String>,
    /// Structured startup configuration; `None` sends JSON `null`.
    pub config: Option<serde_json::Value>,
    /// Declared input-skip policy.
    pub skip_inputs: bool,
    /// Validated immutable I/O limits.
    pub limits: IoLimits,
    /// Validated immutable total timeouts.
    pub timeouts: Timeouts,
    /// Validated heartbeat interval and response window.
    pub heartbeat: HeartbeatPolicy,
}

impl WorkerConfig {
    /// Configure an interpreter and script with bounded defaults.
    pub fn new(interpreter: &str, script: &str) -> (c: WorkerConfig)
        ensures
            c.interpreter@ == interpreter@,
            c.script@ == script@,
            c.args@.len() == 0,
            c.python_path@.len() == 0,
            c.config is None,
            c.skip_inputs,
            c.limits@ == (IoLimitsView { incoming: 65_536, outgoing: 65_536, queued_bytes: 262_144, queued_messages: 16 }),
            c.timeouts@ == (10 * NANOS_PER_SEC as nat, 10 * NANOS_PER_SEC as nat, 500 * NANOS_PER_MILLI as nat, 50
                * NANOS_PER_MILLI as nat),
            c.heartbeat@ == (NANOS_PER_SEC as nat, NANOS_PER_SEC as nat),
    {
        WorkerConfig {
            interpreter: interpreter.to_owned(),
            script: script.to_owned(),
            args: Vec::new(),
            python_path: Vec::new(),
            config: None,
            skip_inputs: true,
            limits: IoLimits::default(),
            timeouts: Timeouts::default(),
            heartbeat: HeartbeatPolicy::default(),
        }
    }

    /// Install a validated heartbeat policy.
    pub fn with_heartbeat(self, heartbeat: HeartbeatPolicy) -> (c: WorkerConfig)
        ensures
            c == (WorkerConfig { heartbeat, ..self }),
    {
        WorkerConfig { heartbeat, ..self }
    }

    /// Set trusted structured startup configuration; launch bounds its encoding.
    pub fn with_config(self, config: serde_json::Value) -> (c: WorkerConfig)
        ensures
            c == (WorkerConfig { config: Some(config), ..self }),
    {
        WorkerConfig { config: Some(config), ..self }
    }

    /// Add a Python import directory.
    pub fn with_python_path(self, dir: &str) -> (c: WorkerConfig)
        ensures
            c == (WorkerConfig { python_path: c.python_path, ..self }),
            c.python_path@.len() == self.python_path@.len() + 1,
            forall|i: int| 0 <= i < self.python_path@.len() ==> c.python_path@[i] == self.python_path@[i],
            c.python_path@.last()@ == dir@,
    {
        let mut c = self;
        c.python_path.push(dir.to_owned());
        c
    }

    /// Add a trusted script argument.
    pub fn with_arg(self, arg: &str) -> (c: WorkerConfig)
        ensures
            c == (WorkerConfig { args: c.args, ..self }),
            c.args@.len() == self.args@.len() + 1,
            forall|i: int| 0 <= i < self.args@.len() ==> c.args@[i] == self.args@[i],
            c.args@.last()@ == arg@,
    {
        let mut c = self;
        c.args.push(arg.to_owned());
        c
    }

    /// Set the declared input-skip policy.
    pub fn with_skip_inputs(self, skip: bool) -> (c: WorkerConfig)
        ensures
            c == (WorkerConfig { skip_inputs: skip, ..self }),
    {
        WorkerConfig { skip_inputs: skip, ..self }
    }

    /// Install validated immutable I/O limits.
    pub fn with_limits(self, limits: IoLimits) -> (c: WorkerConfig)
        ensures
            c == (WorkerConfig { limits, ..self }),
    {
        WorkerConfig { limits, ..self }
    }

    /// Install validated immutable total timeouts.
    pub fn with_timeouts(self, timeouts: Timeouts) -> (c: WorkerConfig)
        ensures
            c == (WorkerConfig { timeouts, ..self }),
    {
        WorkerConfig { timeouts, ..self }
    }

    /// Validate a new total request timeout.
    pub fn with_request_timeout(self, timeout: Duration) -> (r: Result<WorkerConfig, WorkerError>)
        ensures
            timeouts_valid(self.timeouts@.0, timeout@, self.timeouts@.2, self.timeouts@.3) ==> (r matches Ok(c)
                && c == (WorkerConfig { timeouts: c.timeouts, ..self }) && c.timeouts@ == (self.timeouts@.0, timeout@,
                self.timeouts@.2, self.timeouts@.3)),
            !timeouts_valid(self.timeouts@.0, timeout@, self.timeouts@.2, self.timeouts@.3) ==> (r matches Err(e)
                && e == WorkerError::InvalidConfig("invalid total timeout or cleanup reserve")),
    {
        match self.timeouts.with_request(timeout) {
            Ok(t) => Ok(WorkerConfig { timeouts: t, ..self }),
            Err(e) => Err(e),
        }
    }

    /// Configured immutable I/O limits.
    pub fn limits(&self) -> (l: IoLimits)
        ensures
            l == self.limits,
    {
        self.limits
    }

    /// Configured immutable operation budgets.
    pub fn timeouts(&self) -> (t: Timeouts)
        ensures
            t == self.timeouts,
    {
        self.timeouts
    }
}

} // verus!
