use portdetective::model::{flatten_command, PortReport, PortStatus, ProcessInfo, Protocol};

#[test]
fn test_port_report_free() {
    let report = PortReport::free(8080, Protocol::Tcp);
    assert_eq!(report.port, 8080);
    assert_eq!(report.protocol, Protocol::Tcp);
    assert_eq!(report.status, PortStatus::Free);
    assert!(report.processes.is_empty());
}

#[test]
fn test_port_report_in_use() {
    let process = ProcessInfo {
        pid: 1234,
        name: "node".to_string(),
        user: "dev".to_string(),
        command: vec!["node".to_string(), "server.js".to_string()],
        cwd: None,
        parent_pid: None,
        parent_name: None,
        started: None,
        protocol: Protocol::Tcp,
    };

    let report = PortReport::in_use(3000, Protocol::Tcp, vec![process]);
    assert_eq!(report.port, 3000);
    assert_eq!(report.status, PortStatus::InUse);
    assert_eq!(report.processes.len(), 1);
    assert_eq!(report.processes[0].name, "node");
}

#[test]
fn test_protocol_display() {
    assert_eq!(Protocol::Tcp.label(), "tcp");
    assert_eq!(Protocol::Udp.label(), "udp");
    assert_eq!(Protocol::Both.label(), "tcp/udp");
}

#[test]
fn test_flatten_command_empty_uses_name() {
    let name = "nginx".to_string();
    let command: Vec<String> = vec![];
    assert_eq!(flatten_command(&name, &command), "nginx");
}

#[test]
fn test_flatten_command_joins_with_spaces() {
    let name = "nginx".to_string();
    let command = vec!["nginx".to_string(), "-g".to_string(), "daemon off;".to_string()];
    assert_eq!(flatten_command(&name, &command), "nginx -g daemon off;");
}

#[test]
fn test_flatten_command_single_argument() {
    let name = "sh".to_string();
    let command = vec!["/bin/sh".to_string()];
    assert_eq!(flatten_command(&name, &command), "/bin/sh");
}
