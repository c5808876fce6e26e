use portdetective::cli::ProtocolFilter;
use portdetective::model::Protocol;
use portdetective::net::{
    collect_bound_sockets, extract_listening_socket, find_processes_by_port,
    get_listening_ports, get_listening_sockets, BoundSocket, RawProto, RawSocket, TcpSockState,
};

#[test]
fn test_get_listening_sockets_both() {
    let result = get_listening_sockets(ProtocolFilter::Both);
    assert!(result.is_ok());
}

#[test]
fn test_get_listening_sockets_tcp_only() {
    let result = get_listening_sockets(ProtocolFilter::TcpOnly);
    assert!(result.is_ok());

    for socket in result.unwrap() {
        assert_eq!(socket.protocol, Protocol::Tcp);
    }
}

#[test]
fn test_get_listening_sockets_udp_only() {
    let result = get_listening_sockets(ProtocolFilter::UdpOnly);
    assert!(result.is_ok());

    for socket in result.unwrap() {
        assert_eq!(socket.protocol, Protocol::Udp);
    }
}

#[test]
fn test_find_processes_by_port_unlikely() {
    let result = find_processes_by_port(65535, ProtocolFilter::Both);
    assert!(result.is_ok());
}

#[test]
fn test_get_listening_ports_returns_hashmap() {
    let result = get_listening_ports(ProtocolFilter::Both);
    assert!(result.is_ok());

    let map = result.unwrap();
    for (_port, sockets) in &map {
        assert!(!sockets.is_empty());
    }
}

#[test]
fn test_bound_socket_fields() {
    let socket = BoundSocket {
        pid: 1234,
        port: 8080,
        protocol: Protocol::Tcp,
        local_addr: "127.0.0.1".to_string(),
    };

    assert_eq!(socket.pid, 1234);
    assert_eq!(socket.port, 8080);
    assert_eq!(socket.protocol, Protocol::Tcp);
    assert_eq!(socket.local_addr, "127.0.0.1");
}

#[test]
fn test_extract_keeps_listening_tcp() {
    let raw = RawSocket {
        pids: vec![42],
        port: 80,
        proto: RawProto::Tcp(TcpSockState::Listen),
        local_addr: "0.0.0.0".to_string(),
    };
    let b = extract_listening_socket(&raw).expect("listening TCP socket is retained");
    assert_eq!(b.pid, 42);
    assert_eq!(b.port, 80);
    assert_eq!(b.protocol, Protocol::Tcp);
}

#[test]
fn test_extract_drops_established_tcp() {
    let raw = RawSocket {
        pids: vec![42],
        port: 80,
        proto: RawProto::Tcp(TcpSockState::Established),
        local_addr: "0.0.0.0".to_string(),
    };
    assert!(extract_listening_socket(&raw).is_none());
}

#[test]
fn test_extract_keeps_any_bound_udp() {
    let raw = RawSocket {
        pids: vec![7],
        port: 53,
        proto: RawProto::Udp,
        local_addr: "0.0.0.0".to_string(),
    };
    let b = extract_listening_socket(&raw).expect("bound UDP socket is retained");
    assert_eq!(b.protocol, Protocol::Udp);
}

#[test]
fn test_extract_drops_socket_without_pid() {
    let raw = RawSocket {
        pids: vec![],
        port: 53,
        proto: RawProto::Udp,
        local_addr: "0.0.0.0".to_string(),
    };
    assert!(extract_listening_socket(&raw).is_none());
}

#[test]
fn test_extract_takes_first_pid() {
    let raw = RawSocket {
        pids: vec![10, 20, 30],
        port: 22,
        proto: RawProto::Tcp(TcpSockState::Listen),
        local_addr: "::".to_string(),
    };
    assert_eq!(extract_listening_socket(&raw).unwrap().pid, 10);
}

#[test]
fn test_collect_applies_protocol_filter() {
    let raws = vec![
        RawSocket {
            pids: vec![1],
            port: 80,
            proto: RawProto::Tcp(TcpSockState::Listen),
            local_addr: "a".to_string(),
        },
        RawSocket {
            pids: vec![2],
            port: 53,
            proto: RawProto::Udp,
            local_addr: "b".to_string(),
        },
    ];
    let tcp_only = collect_bound_sockets(&raws, ProtocolFilter::TcpOnly);
    assert_eq!(tcp_only.len(), 1);
    assert_eq!(tcp_only[0].pid, 1);

    let both = collect_bound_sockets(&raws, ProtocolFilter::Both);
    assert_eq!(both.len(), 2);
}
