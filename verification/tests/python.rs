//! Bounded worker supervision decisions: frames, heartbeats, deadlines,
//! resource and timeout policies.

use neuradix::python::config::{HeartbeatPolicy, IoLimits, Timeouts, WorkerConfig};
use neuradix::python::deadline::Deadline;
use neuradix::python::error::WorkerError;
use neuradix::python::heartbeat::{Heartbeat, HealthState, WorkerFailure};
use neuradix::python::protocol::Frames;
use neuradix::python::resource::{ResourceLimits, ResourceStage};
use neuradix::python::session::{next_supervision, ready_handshake, SupervisorStep};
use neuradix::python::time::{Duration, Instant};

fn at(base: Instant, d: Duration) -> Instant {
    base.checked_add(d).unwrap()
}

fn before(base: Instant, d: Duration) -> Instant {
    base.checked_sub(d).unwrap()
}

#[test]
fn line_boundary_counts_newline_and_rejects_unterminated_growth() {
    let mut frames = Frames::new(IoLimits::new(64, 64, 128, 2).unwrap());
    frames.push(&[b'x'; 63]).unwrap();
    frames.push(b"\n").unwrap();
    assert_eq!(frames.pop().unwrap().len(), 64);
    frames.push(&[b'x'; 63]).unwrap();
    assert!(matches!(frames.push(b"x"), Err(WorkerError::IncomingTooLarge { limit: 64 })));
    assert!(frames.high_bytes <= 128);
}

#[test]
fn complete_and_partial_lines_share_the_exact_byte_budget() {
    let limits = IoLimits::new(64, 64, 100, 4).unwrap();
    let mut frames = Frames::new(limits);
    frames.push(&[b'x'; 49]).unwrap();
    frames.push(b"\n").unwrap();
    frames.push(&[b'y'; 50]).unwrap();
    assert_eq!(frames.high_bytes, 100);
    assert!(matches!(frames.push(b"\n"), Err(WorkerError::QueueBytesExceeded { limit: 100 })));
    assert_eq!(frames.pop().unwrap().len(), 50);
    frames.push(b"\n").unwrap();
    assert_eq!(frames.pop().unwrap().len(), 51);
}

#[test]
fn message_queue_accepts_exact_count_then_rejects_burst() {
    let mut frames = Frames::new(IoLimits::new(64, 64, 128, 2).unwrap());
    frames.push(b"{}\n{}\n").unwrap();
    assert_eq!(frames.high_messages, 2);
    assert!(matches!(frames.push(b"{}\n"), Err(WorkerError::QueueMessagesExceeded { limit: 2 })));
    assert_eq!(frames.high_messages, 2);
}

#[test]
fn popped_lines_come_out_in_order_and_clear_empties() {
    let mut frames = Frames::new(IoLimits::new(64, 64, 128, 4).unwrap());
    frames.push(b"ab\ncd\nef").unwrap();
    assert_eq!(frames.pop().unwrap(), b"ab\n".to_vec());
    assert_eq!(frames.pop().unwrap(), b"cd\n".to_vec());
    assert!(frames.pop().is_none());
    assert!(!frames.is_empty());
    frames.clear();
    assert!(frames.is_empty());
}

#[test]
fn exact_due_expiry_and_confirmation_boundaries() {
    let now = Instant::from_nanos(5_000_000_000);
    let interval = Duration::from_millis(20);
    let response = Duration::from_millis(10);
    let policy = HeartbeatPolicy::new(interval, response).unwrap();
    let mut state = Heartbeat::new(policy, now).unwrap();
    assert_eq!(state.observe(now).unwrap(), HealthState::Unknown);
    state.confirm(now).unwrap();
    assert_eq!(state.observe(before(at(now, interval), Duration::from_nanos(1))).unwrap(), HealthState::Healthy);
    assert_eq!(state.observe(at(now, interval)).unwrap(), HealthState::Degraded);
    let expiry = at(at(now, interval), response);
    assert_eq!(state.observe(before(expiry, Duration::from_nanos(1))).unwrap(), HealthState::Degraded);
    assert!(matches!(state.confirm(expiry), Err(WorkerError::HeartbeatExpired)));
    assert_eq!(state.failure(), Some(WorkerFailure::HeartbeatExpired));
    assert!(matches!(state.confirm(expiry), Err(WorkerError::Unavailable)));
    state.fail(WorkerFailure::Shutdown);
    assert_eq!(state.failure(), Some(WorkerFailure::HeartbeatExpired));
    let mut replacement = Heartbeat::new(policy, expiry).unwrap();
    assert_eq!(replacement.observe(expiry).unwrap(), HealthState::Unknown);
    replacement.confirm(expiry).unwrap();
    assert_eq!(replacement.due(), at(expiry, interval));
}

#[test]
fn regression_latches_and_configuration_is_bounded() {
    for value in [Duration::zero(), Duration::from_nanos(999_999), Duration::max_value()] {
        assert!(HeartbeatPolicy::new(value, Duration::from_secs(1)).is_err());
        assert!(HeartbeatPolicy::new(Duration::from_secs(1), value).is_err());
    }
    assert!(HeartbeatPolicy::new(Duration::from_millis(1), Duration::from_secs(60)).is_ok());
    let now = Instant::from_nanos(5_000_000_000);
    let mut state = Heartbeat::new(HeartbeatPolicy::default(), now).unwrap();
    state.observe(at(now, Duration::from_nanos(1))).unwrap();
    assert!(matches!(state.confirm(now), Err(WorkerError::SupervisionClock)));
    assert_eq!(state.failure(), Some(WorkerFailure::Clock));
    assert!(matches!(state.observe(at(now, Duration::from_secs(1))), Err(WorkerError::Unavailable)));
}

#[test]
fn representable_instant_boundary_fails_closed() {
    let now = Instant::from_nanos(5_000_000_000);
    let mut seconds = 0u64;
    // Bounded search of the representable instant range, without assuming its epoch.
    for bit in (0..64).rev() {
        let candidate = seconds | (1u64 << bit);
        if candidate.checked_mul(1_000_000_000).is_none() {
            continue;
        }
        if now.checked_add(Duration::from_secs(candidate)).is_some() {
            seconds = candidate;
        }
    }
    let edge = now.checked_add(Duration::from_secs(seconds)).unwrap();
    let policy = HeartbeatPolicy::new(Duration::from_secs(1), Duration::from_secs(1)).unwrap();
    assert!(matches!(Heartbeat::new(policy, edge), Err(WorkerError::SupervisionClock)));
    let mut state = Heartbeat::new(policy, before(edge, Duration::from_secs(2))).unwrap();
    assert!(matches!(state.confirm(before(edge, Duration::from_nanos(1))), Err(WorkerError::SupervisionClock)));
    assert_eq!(state.failure(), Some(WorkerFailure::Clock));
}

#[test]
fn a_fresh_session_is_unknown_until_confirmed() {
    let now = Instant::from_nanos(1_000);
    let mut state = Heartbeat::new(HeartbeatPolicy::default(), now).unwrap();
    assert_eq!(state.failure(), None);
    assert_eq!(state.due(), at(now, Duration::from_secs(1)));
    assert_eq!(state.expires(), at(now, Duration::from_secs(2)));
    assert_eq!(state.observe(now).unwrap(), HealthState::Unknown);
}

#[test]
fn exact_policy_boundaries_reject_invalid_or_unlimited_values() {
    for cpu in [0, 86_401, u64::MAX] {
        assert!(ResourceLimits::new(cpu, 268_435_456).is_err());
    }
    for bytes in [0, 16_777_215, 1_099_511_627_777, u64::MAX] {
        assert!(ResourceLimits::new(300, bytes).is_err());
    }
    assert!(ResourceLimits::new(1, 16_777_216).is_ok());
    assert!(ResourceLimits::new(86_400, 1_099_511_627_776).is_ok());
}

#[test]
fn page_rounding_is_inward() {
    let policy = ResourceLimits::new(1, 268_435_457).unwrap();
    assert_eq!(policy.for_page_size(4096, u64::MAX).unwrap().address_space_bytes(), 268_435_456);
    assert!(matches!(
        policy.for_page_size(0, u64::MAX),
        Err(WorkerError::ResourceSetup { stage: ResourceStage::Platform, errno: None })
    ));
    assert!(policy.for_page_size(4096, 1).is_err());
}

#[test]
fn resource_stage_names_round_trip() {
    for stage in [
        ResourceStage::Configuration,
        ResourceStage::Platform,
        ResourceStage::Privileges,
        ResourceStage::NoNewPrivileges,
        ResourceStage::Cpu,
        ResourceStage::AddressSpace,
        ResourceStage::Verification,
        ResourceStage::Protocol,
    ] {
        assert_eq!(ResourceStage::from_str(stage.as_str()), Some(stage));
    }
    assert_eq!(ResourceStage::from_str("no-such-stage"), None);
}

#[test]
fn invalid_storage_and_deadline_configurations_are_rejected() {
    for (incoming, outgoing, bytes, messages) in [
        (0, 64, 64, 1),
        (64, usize::MAX, 64, 1),
        (128, 64, 127, 1),
        (64, 64, usize::MAX, 1),
        (64, 64, 64, 0),
        (64, 64, 64, 129),
    ] {
        assert!(IoLimits::new(incoming, outgoing, bytes, messages).is_err());
    }
    let total = Duration::from_millis(100);
    for reserve in [Duration::zero(), total, Duration::from_secs(2)] {
        assert!(Timeouts::new(total, total, total, reserve).is_err());
    }
    assert!(WorkerConfig::new("python3", "worker.py").with_request_timeout(Duration::zero()).is_err());
    assert_eq!(IoLimits::default().outstanding_requests(), 1);
}

#[test]
fn a_valid_request_timeout_replaces_only_the_request_budget() {
    let config = WorkerConfig::new("python3", "worker.py").with_request_timeout(Duration::from_secs(2)).unwrap();
    assert_eq!(config.timeouts().request(), Duration::from_secs(2));
    assert_eq!(config.timeouts().handshake(), Duration::from_secs(10));
    assert_eq!(config.timeouts().cleanup(), Duration::from_millis(50));
    let config = config.with_arg("--fast").with_python_path("/opt/lib").with_skip_inputs(false);
    assert_eq!(config.args, vec!["--fast".to_owned()]);
    assert_eq!(config.python_path, vec!["/opt/lib".to_owned()]);
    assert!(!config.skip_inputs);
}

#[test]
fn absolute_deadlines_cap_requests_and_reserve_cleanup() {
    let start = Instant::from_nanos(1_000_000_000);
    let reserve = Duration::from_millis(50);
    let expiry = at(start, Duration::from_millis(200));
    let deadline = Deadline::heartbeat(expiry, reserve).unwrap();
    assert!(deadline.check_at(before(expiry, Duration::from_nanos(1))).is_ok());
    assert!(matches!(deadline.check_at(expiry), Err(WorkerError::Timeout)));
    assert_eq!(deadline.end(), at(expiry, reserve));
    let capped = Deadline::new(start, Duration::from_secs(10), reserve).unwrap().cap_io(expiry).unwrap();
    assert_eq!(capped.io(), expiry);
    assert_eq!(capped.end(), at(expiry, reserve));
    // An operation's earlier total deadline remains the limiting one.
    let short = Deadline::new(start, Duration::from_millis(100), reserve).unwrap();
    let end = short.end();
    assert_eq!(short.cap_io(expiry).unwrap().end(), end);
}

#[test]
fn cleanup_never_ends_after_the_operation_deadline() {
    let start = Instant::from_nanos(1_000_000_000);
    let reserve = Duration::from_millis(50);
    let d = Deadline::new(start, Duration::from_millis(100), reserve).unwrap();
    assert_eq!(d.cleanup_end(start), at(start, reserve));
    let late = at(start, Duration::from_millis(90));
    assert_eq!(d.cleanup_end(late), d.end());
}

#[test]
fn the_ready_handshake_names_the_worker() {
    let info = ready_handshake(Some("ready"), Some("depth"), Some("none")).unwrap();
    assert_eq!(info.name, "depth");
    assert_eq!(info.skip_policy, "none");
    for (kind, name, skip, message) in [
        (Some("pong"), Some("depth"), Some("none"), "expected ready handshake"),
        (None, Some("depth"), Some("none"), "expected ready handshake"),
        (Some("ready"), None, Some("none"), "ready.name must be a string"),
        (Some("ready"), Some("depth"), None, "ready.skipPolicy must be a string"),
    ] {
        match ready_handshake(kind, name, skip) {
            Err(WorkerError::Protocol(m)) => assert_eq!(m, message),
            other => panic!("unexpected {other:?}"),
        }
    }
}

#[test]
fn supervision_stays_within_its_restart_budget() {
    assert_eq!(next_supervision(true, true, true, 0, 2), SupervisorStep::Stopped);
    assert_eq!(next_supervision(false, true, true, 0, 2), SupervisorStep::Heartbeat);
    assert_eq!(next_supervision(false, true, false, 0, 2), SupervisorStep::Session);
    assert_eq!(next_supervision(false, false, true, 0, 2), SupervisorStep::Replace(1));
    assert_eq!(next_supervision(false, false, false, 1, 2), SupervisorStep::Replace(2));
    assert_eq!(next_supervision(false, false, true, 2, 2), SupervisorStep::Exhausted { used: 2, max: 2 });
    assert_eq!(next_supervision(false, false, true, 0, 0), SupervisorStep::Exhausted { used: 0, max: 0 });
}

#[test]
fn popped_lines_then_stored_bytes_are_the_pushed_bytes() {
    let mut frames = Frames::new(IoLimits::new(64, 64, 128, 4).unwrap());
    frames.push(b"ab\ncd").unwrap();
    frames.push(b"\nef").unwrap();
    let mut out = Vec::new();
    out.extend(frames.pop().unwrap());
    frames.push(b"g\nh").unwrap();
    out.extend(frames.pop().unwrap());
    out.extend(frames.pop().unwrap());
    assert!(frames.pop().is_none());
    assert_eq!(out, b"ab\ncd\nefg\n");
    assert!(!frames.is_empty());
    frames.push(b"\n").unwrap();
    out.extend(frames.pop().unwrap());
    assert_eq!(out, b"ab\ncd\nefg\nh\n");
    assert!(frames.is_empty());
}

#[test]
fn durations_in_seconds_and_milliseconds_cover_the_whole_input_range() {
    assert_eq!(Duration::from_secs(u64::MAX).as_nanos(), u64::MAX as u128 * 1_000_000_000);
    assert_eq!(Duration::from_millis(u64::MAX).as_nanos(), u64::MAX as u128 * 1_000_000);
    assert_eq!(Duration::from_millis(3).as_nanos(), 3_000_000);
    assert!(Instant::from_nanos(u64::MAX - 1).checked_add(Duration::from_nanos(1)).is_some());
    assert!(Instant::from_nanos(u64::MAX).checked_add(Duration::from_secs(u64::MAX)).is_none());
    assert!(Instant::from_nanos(5).checked_sub(Duration::from_secs(u64::MAX)).is_none());
}
