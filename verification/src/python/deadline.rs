//! Absolute operation deadlines with a reserved cleanup budget.
use crate::python::error::WorkerError;
use crate::python::time::{Duration, Instant};
use vstd::prelude::*;

verus! {

/// The abstract deadline, in nanoseconds.
pub struct DeadlineView {
    /// Pipe I/O must finish before this instant.
    pub io: nat,
    /// Cleanup must finish by this instant.
    pub end: nat,
    /// Cleanup budget kept after the I/O deadline.
    pub reserve: nat,
}

/// The smaller of two naturals.
pub open spec fn nat_min(a: nat, b: nat) -> nat {
    if a <= b { a } else { b }
}

/// One operation's absolute I/O deadline and cleanup end. Deadlines are never
/// extended once an operation starts.
#[derive(Debug, Clone, Copy)]
pub struct Deadline {
    io: Instant,
    end: Instant,
    reserve: Duration,
}

impl View for Deadline {
    type V = DeadlineView;

    closed spec fn view(&self) -> DeadlineView {
        DeadlineView { io: self.io@, end: self.end@, reserve: self.reserve@ }
    }
}

impl Deadline {
    /// A total budget starting at `start`, of which `reserve` is kept for cleanup.
    pub fn new(start: Instant, total: Duration, reserve: Duration) -> (r: Result<Deadline, WorkerError>)
        ensures
            start@ + total@ > u64::MAX ==> r == Err::<Deadline, WorkerError>(
                WorkerError::InvalidConfig("deadline overflow"),
            ),
            start@ + total@ <= u64::MAX && start@ + total@ < reserve@ ==> r == Err::<
                Deadline,
                WorkerError,
            >(WorkerError::InvalidConfig("cleanup reserve overflow")),
            start@ + total@ <= u64::MAX && start@ + total@ >= reserve@ ==> (r matches Ok(d) && d@
                == (DeadlineView {
                io: (start@ + total@ - reserve@) as nat,
                end: start@ + total@,
                reserve: reserve@,
            })),
    {
        let end = match start.checked_add(total) {
            Some(t) => t,
            None => return Err(WorkerError::InvalidConfig("deadline overflow")),
        };
        let io = match end.checked_sub(reserve) {
            Some(t) => t,
            None => return Err(WorkerError::InvalidConfig("cleanup reserve overflow")),
        };
        Ok(Deadline { io, end, reserve })
    }

    /// A heartbeat probe deadline: I/O until `io`, cleanup `reserve` after it.
    pub fn heartbeat(io: Instant, reserve: Duration) -> (r: Result<Deadline, WorkerError>)
        ensures
            io@ + reserve@ <= u64::MAX ==> (r matches Ok(d) && d@ == (DeadlineView {
                io: io@,
                end: io@ + reserve@,
                reserve: reserve@,
            })),
            io@ + reserve@ > u64::MAX ==> r == Err::<Deadline, WorkerError>(
                WorkerError::SupervisionClock,
            ),
    {
        match io.checked_add(reserve) {
            Some(end) => Ok(Deadline { io, end, reserve }),
            None => Err(WorkerError::SupervisionClock),
        }
    }

    /// I/O may continue strictly before the I/O deadline.
    pub fn check_at(&self, now: Instant) -> (r: Result<(), WorkerError>)
        ensures
            now@ < self@.io ==> r is Ok,
            now@ >= self@.io ==> r == Err::<(), WorkerError>(WorkerError::Timeout),
    {
        if now.before(self.io) {
            Ok(())
        } else {
            Err(WorkerError::Timeout)
        }
    }

    /// Cap the I/O deadline at a responsiveness expiry; the cleanup end never grows.
    pub fn cap_io(self, expiry: Instant) -> (r: Result<Deadline, WorkerError>)
        ensures
            ({
                let io = nat_min(self@.io, expiry@);
                &&& io + self@.reserve <= u64::MAX ==> (r matches Ok(d) && d@ == (DeadlineView {
                    io,
                    end: nat_min(self@.end, io + self@.reserve),
                    reserve: self@.reserve,
                }))
                &&& io + self@.reserve > u64::MAX ==> r == Err::<Deadline, WorkerError>(
                    WorkerError::SupervisionClock,
                )
            }),
    {
        let io = self.io.min(expiry);
        match io.checked_add(self.reserve) {
            Some(t) => Ok(Deadline { io, end: self.end.min(t), reserve: self.reserve }),
            None => Err(WorkerError::SupervisionClock),
        }
    }

    /// Cleanup end for a failure observed at `now`: the reserve from now, never
    /// past the operation's own end.
    pub fn cleanup_end(&self, now: Instant) -> (t: Instant)
        ensures
            now@ + self@.reserve <= u64::MAX ==> t@ == nat_min(now@ + self@.reserve, self@.end),
            now@ + self@.reserve > u64::MAX ==> t@ == self@.end,
    {
        match now.checked_add(self.reserve) {
            Some(t) => t.min(self.end),
            None => self.end,
        }
    }

    /// The I/O deadline.
    pub fn io(&self) -> (t: Instant)
        ensures
            t@ == self@.io,
    {
        self.io
    }

    /// The cleanup end.
    pub fn end(&self) -> (t: Instant)
        ensures
            t@ == self@.end,
    {
        self.end
    }
}

/// Capping never extends an operation: the capped I/O deadline and cleanup end
/// are no later than before or than the expiry plus the reserve.
pub proof fn capping_never_extends(d: DeadlineView, expiry: nat)
    requires
        nat_min(d.io, expiry) + d.reserve <= u64::MAX,
    ensures
        ({
            let io = nat_min(d.io, expiry);
            let end = nat_min(d.end, io + d.reserve);
            &&& io <= d.io && io <= expiry
            &&& end <= d.end && end <= expiry + d.reserve
        }),
{
}

} // verus!
