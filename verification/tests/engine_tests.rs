use portdetective::cli::ProtocolFilter;
use portdetective::engine::{
    dedup_by_pid, dedup_by_port_pid, entries_from, exit_code_for_error, exit_code_for_report,
    inspect_port, kill_target, plan_kill, protocol_of_filter, report_from_outcomes,
    resolve_kill_target, sort_entries_by_port, KillPlan,
};
use portdetective::error::{PdResult, PortDetectiveError};
use portdetective::model::{PortEntry, PortReport, PortStatus, ProcessInfo, Protocol};
use portdetective::net::BoundSocket;
use portdetective::proc::SignalKind;

fn socket(pid: u32, port: u16, protocol: Protocol) -> BoundSocket {
    BoundSocket {
        pid,
        port,
        protocol,
        local_addr: "127.0.0.1".to_string(),
    }
}

fn record(pid: u32, name: &str, user: &str, command: &[&str]) -> ProcessInfo {
    ProcessInfo {
        pid,
        name: name.to_string(),
        user: user.to_string(),
        command: command.iter().map(|s| s.to_string()).collect(),
        cwd: None,
        parent_pid: None,
        parent_name: None,
        started: None,
        protocol: Protocol::Tcp,
    }
}

#[test]
fn test_inspect_scenario_one_tcp_socket() {
    // One TCP socket {pid: 500, port: 8080}; its owner resolves to nginx.
    let sockets = vec![socket(500, 8080, Protocol::Tcp)];
    let targets = dedup_by_pid(&sockets);
    assert_eq!(targets.len(), 1);
    assert_eq!(targets[0].pid, 500);

    let outcomes: Vec<PdResult<ProcessInfo>> =
        vec![Ok(record(500, "nginx", "root", &["nginx", "-g"]))];
    let report = report_from_outcomes(8080, Protocol::Tcp, outcomes);
    assert_eq!(report.status, PortStatus::InUse);
    assert_eq!(report.port, 8080);
    assert_eq!(report.processes.len(), 1);
    assert_eq!(report.processes[0].name, "nginx");
}

#[test]
fn test_inspect_scenario_no_sockets_is_free() {
    // No sockets on port 9999: the report is Free with no processes.
    let sockets: Vec<BoundSocket> = vec![];
    let targets = dedup_by_pid(&sockets);
    assert!(targets.is_empty());

    let report = report_from_outcomes(9999, Protocol::Both, vec![]);
    assert_eq!(report.status, PortStatus::Free);
    assert!(report.processes.is_empty());
}

#[test]
fn test_inspect_dedups_same_pid() {
    // Several sockets owned by one PID resolve to exactly one record.
    let sockets = vec![
        socket(500, 8080, Protocol::Tcp),
        socket(500, 8080, Protocol::Udp),
        socket(500, 8080, Protocol::Tcp),
    ];
    let targets = dedup_by_pid(&sockets);
    assert_eq!(targets.len(), 1);
    assert_eq!(targets[0].pid, 500);
    assert_eq!(targets[0].protocol, Protocol::Tcp);

    let outcomes: Vec<PdResult<ProcessInfo>> = vec![Ok(record(500, "node", "dev", &[]))];
    let report = report_from_outcomes(8080, Protocol::Both, outcomes);
    assert_eq!(report.processes.len(), 1);
}

#[test]
fn test_all_resolutions_failing_yields_free() {
    // Owners that exited between discovery and resolution are dropped;
    // with none surviving the port reports Free.
    let outcomes: Vec<PdResult<ProcessInfo>> = vec![
        Err(PortDetectiveError::ProcessNotFound(500)),
        Err(PortDetectiveError::ProcessNotFound(501)),
    ];
    let report = report_from_outcomes(8080, Protocol::Tcp, outcomes);
    assert_eq!(report.status, PortStatus::Free);
    assert!(report.processes.is_empty());
}

#[test]
fn test_listing_keeps_one_row_per_port() {
    // The same PID bound to two ports keeps one row per port.
    let sockets = vec![
        socket(500, 8080, Protocol::Tcp),
        socket(500, 9090, Protocol::Tcp),
        socket(500, 8080, Protocol::Tcp),
    ];
    let targets = dedup_by_port_pid(&sockets);
    assert_eq!(targets.len(), 2);
    assert_eq!((targets[0].port, targets[0].pid), (8080, 500));
    assert_eq!((targets[1].port, targets[1].pid), (9090, 500));

    let outcomes: Vec<PdResult<ProcessInfo>> = vec![
        Ok(record(500, "node", "dev", &["node", "server.js"])),
        Ok(record(500, "node", "dev", &["node", "server.js"])),
    ];
    let entries = entries_from(&targets, outcomes);
    assert_eq!(entries.len(), 2);
    assert_eq!(entries[0].port, 8080);
    assert_eq!(entries[1].port, 9090);
    assert_eq!(entries[0].pid, 500);
    assert_eq!(entries[1].pid, 500);
    assert_eq!(entries[0].command, "node server.js");
}

#[test]
fn test_listing_drops_failed_resolutions() {
    let sockets = vec![
        socket(500, 8080, Protocol::Tcp),
        socket(600, 9090, Protocol::Tcp),
    ];
    let targets = dedup_by_port_pid(&sockets);
    let outcomes: Vec<PdResult<ProcessInfo>> = vec![
        Err(PortDetectiveError::ProcessNotFound(500)),
        Ok(record(600, "sshd", "root", &["/usr/sbin/sshd", "-D"])),
    ];
    let entries = entries_from(&targets, outcomes);
    assert_eq!(entries.len(), 1);
    assert_eq!(entries[0].pid, 600);
    assert_eq!(entries[0].command, "/usr/sbin/sshd -D");
}

#[test]
fn test_listing_sorted_by_port() {
    let entry = |port: u16, pid: u32| PortEntry {
        port,
        protocol: Protocol::Tcp,
        pid,
        name: "p".to_string(),
        user: "u".to_string(),
        command: "c".to_string(),
    };
    let entries = vec![entry(8080, 1), entry(22, 2), entry(443, 3), entry(22, 4)];
    let sorted = sort_entries_by_port(entries);
    let ports: Vec<u16> = sorted.iter().map(|e| e.port).collect();
    assert_eq!(ports, vec![22, 22, 443, 8080]);
    // Rows with equal ports keep their discovery order.
    assert_eq!(sorted[0].pid, 2);
    assert_eq!(sorted[1].pid, 4);
}

#[test]
fn test_inspect_port_on_unlikely_port() {
    // Whatever the host has running, inspecting an extreme port must not
    // fail for any reason but an enumeration failure.
    match inspect_port(65535, ProtocolFilter::Both) {
        Ok(report) => {
            assert_eq!(report.port, 65535);
            assert_eq!(
                report.status == PortStatus::Free,
                report.processes.is_empty()
            );
        }
        Err(e) => assert!(matches!(e, PortDetectiveError::NetworkError(_))),
    }
}

#[test]
fn test_protocol_of_filter() {
    assert_eq!(protocol_of_filter(ProtocolFilter::TcpOnly), Protocol::Tcp);
    assert_eq!(protocol_of_filter(ProtocolFilter::UdpOnly), Protocol::Udp);
    assert_eq!(protocol_of_filter(ProtocolFilter::Both), Protocol::Both);
}

#[test]
fn test_kill_target_picks_first_socket() {
    let sockets = vec![
        socket(500, 8080, Protocol::Tcp),
        socket(600, 8080, Protocol::Udp),
    ];
    assert_eq!(kill_target(&sockets), Some((500, Protocol::Tcp)));
    assert_eq!(kill_target(&vec![]), None);
}

#[test]
fn test_kill_surfaces_vanished_target() {
    // The target exited just before resolution: the kill path surfaces
    // ProcessNotFound instead of silently succeeding.
    let resolution: PdResult<ProcessInfo> = Err(PortDetectiveError::ProcessNotFound(500));
    let prepared = resolve_kill_target(resolution);
    assert!(matches!(
        prepared,
        Err(PortDetectiveError::ProcessNotFound(500))
    ));
}

#[test]
fn test_kill_plan_signal_follows_force_flag() {
    assert_eq!(
        plan_kill(false, true, false),
        KillPlan::Proceed(SignalKind::Term)
    );
    assert_eq!(
        plan_kill(true, true, false),
        KillPlan::Proceed(SignalKind::Kill)
    );
    assert_eq!(
        plan_kill(false, false, true),
        KillPlan::Proceed(SignalKind::Term)
    );
}

#[test]
fn test_declining_confirmation_cancels() {
    assert_eq!(plan_kill(false, false, false), KillPlan::Cancelled);
    assert_eq!(plan_kill(true, false, false), KillPlan::Cancelled);
}

#[test]
fn test_exit_codes() {
    assert_eq!(exit_code_for_error(&PortDetectiveError::PortFree(80)), 0);
    assert_eq!(
        exit_code_for_error(&PortDetectiveError::PermissionDenied("x".to_string())),
        2
    );
    assert_eq!(
        exit_code_for_error(&PortDetectiveError::ProcessNotFound(1)),
        3
    );
    assert_eq!(exit_code_for_error(&PortDetectiveError::Cancelled), 4);
    assert_eq!(
        exit_code_for_error(&PortDetectiveError::NetworkError("x".to_string())),
        1
    );
    assert_eq!(
        exit_code_for_error(&PortDetectiveError::KillFailed {
            pid: 1,
            reason: "x".to_string()
        }),
        1
    );
    assert_eq!(exit_code_for_error(&PortDetectiveError::InvalidPort(0)), 1);

    assert_eq!(exit_code_for_report(&PortReport::free(80, Protocol::Tcp)), 0);
    let busy = PortReport::in_use(80, Protocol::Tcp, vec![record(1, "a", "b", &[])]);
    assert_eq!(exit_code_for_report(&busy), 1);
}
