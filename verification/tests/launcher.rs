//! Decisions of the resource launcher: its arguments, the status evidence that
//! it runs unprivileged, and the lines it exchanges with the supervisor.

use neuradix::python::launcher::{
    confirmation_line, is_acknowledgement, launch_policy, parse_number, report_line, unprivileged,
};
use neuradix::python::resource::{page_size_from, ResourceLimits, ResourceStage};
use neuradix::python::error::WorkerError;
use nix::sys::resource::{getrlimit, Resource};

fn args(values: &[&str]) -> Vec<String> {
    values.iter().map(|v| v.to_string()).collect()
}

const STATUS: &str = "Name:\tpython3\nUmask:\t0022\nUid:\t1000\t1000\t1000\t1000\n\
Gid:\t1000\t1000\t1000\t1000\nCapInh:\t0000000000000000\nCapPrm:\t0000000000000000\n\
CapEff:\t0000000000000000\nCapBnd:\t000001ffffffffff\nCapAmb:\t0000000000000000\n";

#[test]
fn page_rounding_is_inward_and_does_not_change_supervisor_limits() {
    let before = (getrlimit(Resource::RLIMIT_CPU).unwrap(), getrlimit(Resource::RLIMIT_AS).unwrap());
    let policy = ResourceLimits::new(1, 268_435_457).unwrap();
    assert_eq!(policy.for_current_platform().unwrap().address_space_bytes(), 268_435_456);
    assert_eq!(before, (getrlimit(Resource::RLIMIT_CPU).unwrap(), getrlimit(Resource::RLIMIT_AS).unwrap()));
}

#[test]
fn page_rounding_for_a_given_page_size() {
    let policy = ResourceLimits::new(7, 16_777_216 + 4095).unwrap();
    let rounded = policy.for_page_size(4096, u64::MAX).unwrap();
    assert_eq!(rounded.cpu_seconds(), 7);
    assert_eq!(rounded.address_space_bytes(), 16_777_216);
    assert!(matches!(
        policy.for_page_size(0, u64::MAX),
        Err(WorkerError::ResourceSetup { stage: ResourceStage::Platform, errno: None })
    ));
    // A budget that rounds below the minimum is refused.
    let small = ResourceLimits::new(7, 16_777_216).unwrap();
    assert!(matches!(small.for_page_size(1 << 25, u64::MAX), Err(WorkerError::InvalidConfig(_))));
    // A budget at the kernel's unlimited value is refused.
    assert!(matches!(
        policy.for_page_size(4096, 16_777_216),
        Err(WorkerError::ResourceSetup { stage: ResourceStage::Platform, errno: None })
    ));
}

#[test]
fn sysconf_answers_map_to_page_sizes() {
    assert!(matches!(page_size_from(Ok(Some(4096))), Ok(4096)));
    assert!(matches!(
        page_size_from(Ok(Some(0))),
        Err(WorkerError::ResourceSetup { stage: ResourceStage::Platform, errno: None })
    ));
    assert!(matches!(
        page_size_from(Ok(Some(-1))),
        Err(WorkerError::ResourceSetup { stage: ResourceStage::Platform, errno: None })
    ));
    assert!(matches!(
        page_size_from(Ok(None)),
        Err(WorkerError::ResourceSetup { stage: ResourceStage::Platform, errno: None })
    ));
    assert!(matches!(
        page_size_from(Err(22)),
        Err(WorkerError::ResourceSetup { stage: ResourceStage::Platform, errno: Some(22) })
    ));
}

#[test]
fn launch_arguments_give_a_rounded_policy() {
    let limits = launch_policy(&args(&["30", "268435457", "--", "python3", "-c", "pass"]), 4096, u64::MAX).unwrap();
    assert_eq!(limits.cpu_seconds(), 30);
    assert_eq!(limits.address_space_bytes(), 268_435_456);
    // `+` is accepted as `u64::from_str` accepts it.
    let plus = launch_policy(&args(&["+30", "268435456", "--", "python3"]), 4096, u64::MAX).unwrap();
    assert_eq!(plus.cpu_seconds(), 30);
}

#[test]
fn malformed_launch_arguments_are_configuration_failures() {
    let failure = Err((ResourceStage::Configuration, None));
    for bad in [
        &["30", "268435456", "--"][..],
        &["30", "268435456", "-", "python3"][..],
        &["x", "268435456", "--", "python3"][..],
        &["30", "", "--", "python3"][..],
        &["-1", "268435456", "--", "python3"][..],
        &["18446744073709551616", "268435456", "--", "python3"][..],
        &["0", "268435456", "--", "python3"][..],
        &["86401", "268435456", "--", "python3"][..],
        &["30", "1024", "--", "python3"][..],
    ] {
        assert_eq!(launch_policy(&args(bad), 4096, u64::MAX), failure, "{bad:?}");
    }
    assert_eq!(launch_policy(&args(&["30", "268435456", "--", "python3"]), 0, u64::MAX), failure);
}

#[test]
fn numbers_parse_as_std_parses_them() {
    let digits: Vec<char> = "0x1f 255 ff 4294967296".chars().collect();
    assert_eq!(parse_number(&digits, 5, 8, false, u64::MAX), Some(255));
    assert_eq!(parse_number(&digits, 9, 11, true, u64::MAX), Some(255));
    assert_eq!(parse_number(&digits, 9, 11, false, u64::MAX), None);
    assert_eq!(parse_number(&digits, 12, 22, false, u32::MAX as u64), None);
    assert_eq!(parse_number(&digits, 12, 22, false, u64::MAX), Some(4_294_967_296));
    assert_eq!(parse_number(&digits, 0, 0, false, u64::MAX), None);
}

#[test]
fn unprivileged_status_is_accepted() {
    assert_eq!(unprivileged(STATUS), Ok(()));
    assert_eq!(unprivileged(&STATUS.replace('\n', "\r\n")), Ok(()));
}

#[test]
fn privileged_or_incomplete_status_is_refused() {
    let failure = Err((ResourceStage::Privileges, None));
    assert_eq!(unprivileged(&STATUS.replace("Uid:\t1000\t1000\t1000\t1000", "Uid:\t0\t0\t0\t0")), failure);
    assert_eq!(unprivileged(&STATUS.replace("Uid:\t1000\t1000\t1000\t1000", "Uid:\t1000\t1000\t1000")), failure);
    assert_eq!(unprivileged(&STATUS.replace("Uid:\t1000\t1000\t1000\t1000", "Uid:\t1000\t1000\tx\t1000")), failure);
    assert_eq!(
        unprivileged(&STATUS.replace("CapEff:\t0000000000000000", "CapEff:\t0000000000000001")),
        failure
    );
    assert_eq!(unprivileged(&STATUS.replace("CapAmb:\t0000000000000000\n", "")), failure);
    assert_eq!(unprivileged(""), failure);
    let oversized = format!("{STATUS}{}", "x".repeat(16_384));
    assert_eq!(unprivileged(&oversized), failure);
}

#[test]
fn report_lines_name_the_stage_and_error() {
    assert_eq!(
        report_line(ResourceStage::Cpu, Some(1)).unwrap(),
        b"{\"kind\":\"limitError\",\"stage\":\"cpu\",\"errno\":1}\n".to_vec()
    );
    assert_eq!(
        report_line(ResourceStage::Privileges, None).unwrap(),
        b"{\"kind\":\"limitError\",\"stage\":\"privs\",\"errno\":null}\n".to_vec()
    );
    assert_eq!(
        report_line(ResourceStage::Verification, Some(-2147483648)).unwrap(),
        b"{\"kind\":\"limitError\",\"stage\":\"verify\",\"errno\":-2147483648}\n".to_vec()
    );
}

#[test]
fn confirmation_names_the_installed_limits() {
    let limits = ResourceLimits::new(86_400, 1_099_511_627_776).unwrap();
    let line = confirmation_line(limits).unwrap();
    assert_eq!(line, b"{\"kind\":\"limits-v1\",\"cpu\":86400,\"as\":1099511627776}\n".to_vec());
    assert!(line.len() <= 64);
}

#[test]
fn only_the_exact_acknowledgement_starts_the_worker() {
    assert!(is_acknowledgement(b"{\"kind\":\"start\"}\n"));
    assert!(!is_acknowledgement(b"{\"kind\":\"start\"}"));
    assert!(!is_acknowledgement(b"{\"kind\":\"stop\"}\n"));
    assert!(!is_acknowledgement(b""));
}
