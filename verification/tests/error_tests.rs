use portdetective::error::{PdResult, PortDetectiveError};

#[test]
fn test_invalid_port_message() {
    let err = PortDetectiveError::InvalidPort(0);
    assert_eq!(err.message(), "Port 0 is not valid (must be 1-65535)");
}

#[test]
fn test_network_error_message() {
    let err = PortDetectiveError::NetworkError("socket read failed".to_string());
    assert_eq!(
        err.message(),
        "Could not enumerate network sockets: socket read failed"
    );
}

#[test]
fn test_process_not_found_message() {
    let err = PortDetectiveError::ProcessNotFound(12345);
    assert_eq!(
        err.message(),
        "Process 12345 not found or no longer running"
    );
}

#[test]
fn test_permission_denied_message() {
    let err = PortDetectiveError::PermissionDenied("Cannot kill PID 1".to_string());
    assert_eq!(err.message(), "Permission denied: Cannot kill PID 1");
}

#[test]
fn test_kill_failed_message() {
    let err = PortDetectiveError::KillFailed {
        pid: 999,
        reason: "ESRCH".to_string(),
    };
    assert_eq!(err.message(), "Kill failed for PID 999: ESRCH");
}

#[test]
fn test_port_free_message() {
    let err = PortDetectiveError::PortFree(8080);
    assert_eq!(err.message(), "No process found on port 8080");
}

#[test]
fn test_cancelled_message() {
    let err = PortDetectiveError::Cancelled;
    assert_eq!(err.message(), "Operation cancelled by user");
}

#[test]
fn test_result_type_alias() {
    fn returns_ok() -> PdResult<u32> {
        Ok(42)
    }

    fn returns_err() -> PdResult<u32> {
        Err(PortDetectiveError::Cancelled)
    }

    assert!(returns_ok().is_ok());
    assert!(returns_err().is_err());
}
