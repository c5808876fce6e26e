use chrono::TimeZone;
use portdetective::error::PortDetectiveError;
use portdetective::model::Protocol;
use portdetective::proc::{
    classify_signal_failure, get_cwd_linux, inspect, process_start_time, record_outcome,
    signal_for, RawProcess, SignalFailure, SignalKind,
};

fn current_pid() -> u32 {
    sysinfo::get_current_pid().expect("current PID is known").as_u32()
}

#[test]
fn test_inspect_current_process() {
    let pid = current_pid();
    let result = inspect(pid, Protocol::Tcp);
    assert!(result.is_ok());

    let info = result.unwrap();
    assert_eq!(info.pid, pid);
    assert!(!info.name.is_empty());
    assert_eq!(info.protocol, Protocol::Tcp);
}

#[test]
fn test_inspect_preserves_protocol() {
    let pid = current_pid();

    let tcp_result = inspect(pid, Protocol::Tcp);
    assert_eq!(tcp_result.unwrap().protocol, Protocol::Tcp);

    let udp_result = inspect(pid, Protocol::Udp);
    assert_eq!(udp_result.unwrap().protocol, Protocol::Udp);
}

#[test]
fn test_inspect_nonexistent_process() {
    let result = inspect(u32::MAX, Protocol::Tcp);
    assert!(result.is_err());
    assert!(matches!(
        result.unwrap_err(),
        PortDetectiveError::ProcessNotFound(_)
    ));
}

#[test]
fn test_inspect_has_user() {
    let pid = current_pid();
    let info = inspect(pid, Protocol::Tcp).unwrap();
    assert!(!info.user.is_empty());
}

#[test]
fn test_inspect_command_field_exists() {
    let pid = current_pid();
    let info = inspect(pid, Protocol::Tcp).unwrap();
    let _ = info.command.len();
}

#[test]
fn test_process_start_time_zero_returns_none() {
    let result = process_start_time(0);
    assert!(result.is_none());
}

#[test]
fn test_process_start_time_valid() {
    let result = process_start_time(1577836800);
    assert!(result.is_some());

    let dt = chrono::Local
        .timestamp_opt(result.unwrap() as i64, 0)
        .single()
        .unwrap();
    assert!(dt.format("%Y").to_string() == "2020");
}

#[test]
fn test_absent_probe_fails_with_process_not_found() {
    let outcome = record_outcome(77, Protocol::Tcp, None, None, None);
    assert_eq!(outcome.unwrap_err(), PortDetectiveError::ProcessNotFound(77));
}

#[test]
fn test_present_probe_always_yields_record() {
    let raw = RawProcess {
        name: "worker".to_string(),
        uid: None,
        command: vec![],
        cwd: None,
        parent_pid: None,
        start_time: 0,
    };
    let rec = record_outcome(88, Protocol::Udp, Some(raw), None, None).unwrap();
    assert_eq!(rec.pid, 88);
    assert_eq!(rec.name, "worker");
    // An unresolvable user falls back to the literal "unknown".
    assert_eq!(rec.user, "unknown");
    // A zero start-time reading resolves to an absent start time.
    assert!(rec.started.is_none());
    assert_eq!(rec.protocol, Protocol::Udp);
}

#[test]
fn test_parent_name_kept_only_with_parent_pid() {
    let raw = RawProcess {
        name: "worker".to_string(),
        uid: None,
        command: vec![],
        cwd: None,
        parent_pid: None,
        start_time: 5,
    };
    // A parent name without a parent PID is dropped.
    let rec = record_outcome(88, Protocol::Tcp, Some(raw), None, Some("ghost".to_string()))
        .unwrap();
    assert!(rec.parent_pid.is_none());
    assert!(rec.parent_name.is_none());
    assert_eq!(rec.started, Some(5));
}

#[test]
fn test_signal_for_force_flag() {
    assert_eq!(signal_for(false), SignalKind::Term);
    assert_eq!(signal_for(true), SignalKind::Kill);
}

#[test]
fn test_classify_denied_failure() {
    let e = classify_signal_failure(1, SignalFailure::Denied);
    match &e {
        PortDetectiveError::PermissionDenied(hint) => {
            assert_eq!(hint, "Cannot kill PID 1. Try running with elevated permissions.");
        }
        other => panic!("unexpected classification: {:?}", other),
    }
}

#[test]
fn test_classify_other_failure() {
    let e = classify_signal_failure(999, SignalFailure::Other("ESRCH".to_string()));
    assert_eq!(e.message(), "Kill failed for PID 999: ESRCH");
}

#[test]
fn test_get_cwd_of_current_process() {
    let cwd = get_cwd_linux(current_pid());
    assert!(cwd.is_some());
}
