//! Socket enumeration: querying the kernel socket tables and retaining the
//! bound/listening sockets that have an owning process.
//!
//! The kernel query itself is trusted (netstat2); every retention decision
//! is verified over the plain [`RawSocket`] data the wrappers hand back.

use vstd::prelude::*;
use crate::cli::ProtocolFilter;
use crate::error::{PdResult, PortDetectiveError};
use crate::model::Protocol;
use std::collections::HashMap;

verus! {

broadcast use vstd::std_specs::hash::group_hash_axioms;

/// A socket bound to a port, with the process that owns it.
#[derive(Debug)]
pub struct BoundSocket {
    pub pid: u32,
    pub port: u16,
    pub protocol: Protocol,
    /// The local address, informational only.
    pub local_addr: String,
}

impl Clone for BoundSocket {
    fn clone(&self) -> (r: Self)
        ensures
            r == *self,
    {
        BoundSocket {
            pid: self.pid,
            port: self.port,
            protocol: self.protocol,
            local_addr: self.local_addr.clone(),
        }
    }
}

/// The connection state of a TCP socket, as the kernel reports it.
#[derive(Debug, Clone, Copy, PartialEq, Eq, Structural)]
pub enum TcpSockState {
    Closed,
    Listen,
    SynSent,
    SynReceived,
    Established,
    FinWait1,
    FinWait2,
    CloseWait,
    Closing,
    LastAck,
    TimeWait,
    DeleteTcb,
    Unknown,
}

/// Protocol-specific data of a socket as enumerated: TCP sockets carry a
/// connection state, UDP sockets have none.
#[derive(Debug, Clone, Copy, PartialEq, Eq, Structural)]
pub enum RawProto {
    Tcp(TcpSockState),
    Udp,
}

/// One socket-table row, reduced to plain values.
#[derive(Debug)]
pub struct RawSocket {
    /// Identifiers of the processes associated with the socket.
    pub pids: Vec<u32>,
    pub port: u16,
    pub proto: RawProto,
    pub local_addr: String,
}

#[verifier::external_type_specification]
#[verifier::external_body]
pub struct ExSocketInfo(netstat2::SocketInfo);

#[verifier::external_type_specification]
#[verifier::external_body]
pub struct ExTcpState(netstat2::TcpState);

/// Relies on netstat2::get_sockets_info: queries the kernel socket tables
/// for IPv4 and IPv6 and the selected protocols, failing when the
/// enumeration itself fails.
#[verifier::external_body]
fn fetch_socket_table(filter: ProtocolFilter) -> (r: Result<Vec<netstat2::SocketInfo>, String>) {
    let af = netstat2::AddressFamilyFlags::IPV4 | netstat2::AddressFamilyFlags::IPV6;
    let pf = match filter {
        ProtocolFilter::TcpOnly => netstat2::ProtocolFlags::TCP,
        ProtocolFilter::UdpOnly => netstat2::ProtocolFlags::UDP,
        ProtocolFilter::Both => netstat2::ProtocolFlags::TCP | netstat2::ProtocolFlags::UDP,
    };
    netstat2::get_sockets_info(af, pf).map_err(|e| e.to_string())
}

/// Relies on the variants of netstat2::TcpState; each kernel state maps to
/// the same-named state of [`TcpSockState`].
#[verifier::external_body]
fn state_of(st: &netstat2::TcpState) -> (r: TcpSockState) {
    match st {
        netstat2::TcpState::Closed => TcpSockState::Closed,
        netstat2::TcpState::Listen => TcpSockState::Listen,
        netstat2::TcpState::SynSent => TcpSockState::SynSent,
        netstat2::TcpState::SynReceived => TcpSockState::SynReceived,
        netstat2::TcpState::Established => TcpSockState::Established,
        netstat2::TcpState::FinWait1 => TcpSockState::FinWait1,
        netstat2::TcpState::FinWait2 => TcpSockState::FinWait2,
        netstat2::TcpState::CloseWait => TcpSockState::CloseWait,
        netstat2::TcpState::Closing => TcpSockState::Closing,
        netstat2::TcpState::LastAck => TcpSockState::LastAck,
        netstat2::TcpState::TimeWait => TcpSockState::TimeWait,
        netstat2::TcpState::DeleteTcb => TcpSockState::DeleteTcb,
        netstat2::TcpState::Unknown => TcpSockState::Unknown,
    }
}

/// Relies on the public fields of netstat2::SocketInfo: the associated PID
/// list and the protocol-specific port, state and local address, moved into
/// plain values one for one.
#[verifier::external_body]
fn raw_of_socket(s: &netstat2::SocketInfo) -> (r: RawSocket) {
    match &s.protocol_socket_info {
        netstat2::ProtocolSocketInfo::Tcp(t) => RawSocket {
            pids: s.associated_pids.clone(),
            port: t.local_port,
            proto: RawProto::Tcp(state_of(&t.state)),
            local_addr: format!("{}", t.local_addr),
        },
        netstat2::ProtocolSocketInfo::Udp(u) => RawSocket {
            pids: s.associated_pids.clone(),
            port: u.local_port,
            proto: RawProto::Udp,
            local_addr: format!("{}", u.local_addr),
        },
    }
}

/// Whether an enumerated socket row is retained: it must have at least one
/// associated process, and a TCP socket must be in the LISTEN state.  UDP
/// sockets carry no connection state, so every owned one is retained.
pub open spec fn spec_keep(r: RawSocket) -> bool {
    &&& r.pids@.len() > 0
    &&& match r.proto {
        RawProto::Tcp(st) => st is Listen,
        RawProto::Udp => true,
    }
}

/// The protocol under which a socket row was enumerated.
pub open spec fn spec_proto_of(p: RawProto) -> Protocol {
    match p {
        RawProto::Tcp(_) => Protocol::Tcp,
        RawProto::Udp => Protocol::Udp,
    }
}

/// The bound socket extracted from one socket-table row, if it is retained;
/// the first associated PID is taken as the owner.
pub open spec fn spec_extract(r: RawSocket) -> Option<BoundSocket> {
    if spec_keep(r) {
        Some(
            BoundSocket {
                pid: r.pids@[0],
                port: r.port,
                protocol: spec_proto_of(r.proto),
                local_addr: r.local_addr,
            },
        )
    } else {
        None
    }
}

/// Extracts the bound socket from one socket-table row, dropping rows with
/// no associated PID and TCP rows that are not listening.
pub fn extract_listening_socket(raw: &RawSocket) -> (r: Option<BoundSocket>)
    ensures
        r == spec_extract(*raw),
{
    if raw.pids.len() == 0 {
        return None;
    }
    let pid = raw.pids[0];
    match raw.proto {
        RawProto::Tcp(st) => {
            if st == TcpSockState::Listen {
                Some(
                    BoundSocket {
                        pid,
                        port: raw.port,
                        protocol: Protocol::Tcp,
                        local_addr: raw.local_addr.clone(),
                    },
                )
            } else {
                None
            }
        },
        RawProto::Udp => Some(
            BoundSocket {
                pid,
                port: raw.port,
                protocol: Protocol::Udp,
                local_addr: raw.local_addr.clone(),
            },
        ),
    }
}

/// For all enumerated TCP sockets the connection state is LISTEN: a TCP row
/// in any other state is never extracted.
pub proof fn lemma_tcp_extracted_only_when_listening(r: RawSocket)
    ensures
        (spec_extract(r) matches Some(b) && b.protocol is Tcp) ==> (r.proto matches RawProto::Tcp(
            st,
        ) && st is Listen),
{
}

/// Whether a UDP socket row is retained depends only on its associated
/// PID list, never on any connection-state field.
pub proof fn lemma_udp_inclusion_ignores_state(r: RawSocket)
    requires
        r.proto is Udp,
    ensures
        spec_extract(r) is Some <==> r.pids@.len() > 0,
{
}

/// Whether a socket's protocol passes the query's protocol filter.
pub open spec fn spec_matches_filter(p: Protocol, f: ProtocolFilter) -> bool {
    match f {
        ProtocolFilter::TcpOnly => p is Tcp,
        ProtocolFilter::UdpOnly => p is Udp,
        ProtocolFilter::Both => true,
    }
}

/// Returns whether a socket's protocol passes the query's protocol filter.
pub fn matches_filter(p: Protocol, f: ProtocolFilter) -> (r: bool)
    ensures
        r == spec_matches_filter(p, f),
{
    match f {
        ProtocolFilter::TcpOnly => matches!(p, Protocol::Tcp),
        ProtocolFilter::UdpOnly => matches!(p, Protocol::Udp),
        ProtocolFilter::Both => true,
    }
}

/// The bound sockets extracted from a socket table, in table order,
/// restricted to the protocols the filter selects.
pub open spec fn spec_collect(raws: Seq<RawSocket>, f: ProtocolFilter) -> Seq<BoundSocket>
    decreases raws.len(),
{
    if raws.len() == 0 {
        Seq::empty()
    } else {
        spec_collect(raws.drop_last(), f) + match spec_extract(raws.last()) {
            Some(b) => if spec_matches_filter(b.protocol, f) {
                seq![b]
            } else {
                Seq::<BoundSocket>::empty()
            },
            None => Seq::<BoundSocket>::empty(),
        }
    }
}

/// Every socket collected from a table passes the protocol filter.
pub proof fn lemma_collect_matches_filter(raws: Seq<RawSocket>, f: ProtocolFilter)
    ensures
        forall|i: int|
            0 <= i < spec_collect(raws, f).len() ==> spec_matches_filter(
                #[trigger] spec_collect(raws, f)[i].protocol,
                f,
            ),
    decreases raws.len(),
{
    if raws.len() > 0 {
        lemma_collect_matches_filter(raws.drop_last(), f);
    }
}

/// Every collected socket is the extract of some socket-table row that
/// passes the protocol filter.
pub proof fn lemma_collect_sound(raws: Seq<RawSocket>, f: ProtocolFilter)
    ensures
        forall|i: int|
            0 <= i < spec_collect(raws, f).len() ==> exists|j: int|
                0 <= j < raws.len() && spec_extract(#[trigger] raws[j]) == Some(
                    #[trigger] spec_collect(raws, f)[i],
                ),
    decreases raws.len(),
{
    if raws.len() > 0 {
        lemma_collect_sound(raws.drop_last(), f);
        let prefix = spec_collect(raws.drop_last(), f);
        let full = spec_collect(raws, f);
        assert forall|i: int| 0 <= i < full.len() implies exists|j: int|
            0 <= j < raws.len() && spec_extract(#[trigger] raws[j]) == Some(
                #[trigger] full[i],
            ) by {
            if i < prefix.len() {
                let j = choose|j: int|
                    0 <= j < raws.drop_last().len() && spec_extract(#[trigger] raws.drop_last()[j])
                        == Some(prefix[i]);
                assert(raws.drop_last()[j] == raws[j]);
                assert(spec_extract(raws[j]) == Some(full[i]));
            } else {
                assert(spec_extract(raws[raws.len() - 1]) == Some(full[i]));
            }
        }
    }
}

/// Every extracted socket that passes the protocol filter is collected:
/// in particular every owned UDP row is, whatever its state fields say,
/// and every owned listening TCP row is.
pub proof fn lemma_collect_complete(raws: Seq<RawSocket>, f: ProtocolFilter, j: int)
    requires
        0 <= j < raws.len(),
        spec_extract(raws[j]) is Some,
        spec_matches_filter(spec_extract(raws[j])->0.protocol, f),
    ensures
        exists|i: int|
            0 <= i < spec_collect(raws, f).len() && #[trigger] spec_collect(raws, f)[i]
                == spec_extract(raws[j])->0,
    decreases raws.len(),
{
    let full = spec_collect(raws, f);
    let prefix = spec_collect(raws.drop_last(), f);
    if j == raws.len() - 1 {
        assert(full[full.len() - 1] == spec_extract(raws[j])->0);
    } else {
        assert(raws.drop_last()[j] == raws[j]);
        lemma_collect_complete(raws.drop_last(), f, j);
        let i = choose|i: int|
            0 <= i < prefix.len() && #[trigger] prefix[i] == spec_extract(
                raws.drop_last()[j],
            )->0;
        assert(full[i] == spec_extract(raws[j])->0);
    }
}

/// For all enumerated TCP sockets the kernel state was LISTEN: a TCP
/// socket in the enumeration's output always stems from a listening row.
pub proof fn lemma_enumerated_tcp_was_listening(raws: Seq<RawSocket>, f: ProtocolFilter, i: int)
    requires
        0 <= i < spec_collect(raws, f).len(),
        spec_collect(raws, f)[i].protocol is Tcp,
    ensures
        exists|j: int|
            0 <= j < raws.len() && ((#[trigger] raws[j]).proto matches RawProto::Tcp(st)
                && st is Listen && spec_extract(raws[j]) == Some(spec_collect(raws, f)[i])),
{
    lemma_collect_sound(raws, f);
    let b = spec_collect(raws, f)[i];
    let j = choose|j: int| 0 <= j < raws.len() && spec_extract(#[trigger] raws[j]) == Some(b);
    assert(spec_keep(raws[j]));
    assert(spec_proto_of(raws[j].proto) is Tcp);
    assert(raws[j].proto matches RawProto::Tcp(st) && st is Listen);
}

/// Collects the retained bound sockets of a socket table, in table order.
pub fn collect_bound_sockets(raws: &Vec<RawSocket>, f: ProtocolFilter) -> (out: Vec<BoundSocket>)
    ensures
        out@ == spec_collect(raws@, f),
{
    let mut out: Vec<BoundSocket> = Vec::new();
    let mut i: usize = 0;
    while i < raws.len()
        invariant
            i <= raws.len(),
            out@ == spec_collect(raws@.take(i as int), f),
        decreases raws.len() - i,
    {
        proof {
            assert(raws@.take(i + 1 as int).drop_last() =~= raws@.take(i as int));
            assert(raws@.take(i + 1 as int).last() == raws@[i as int]);
        }
        match extract_listening_socket(&raws[i]) {
            Some(b) => {
                if matches_filter(b.protocol, f) {
                    out.push(b);
                } else {
                    proof {
                        assert(out@ =~= spec_collect(raws@.take(i + 1 as int), f));
                    }
                }
            },
            None => {
                proof {
                    assert(out@ =~= spec_collect(raws@.take(i + 1 as int), f));
                }
            },
        }
        i = i + 1;
    }
    proof {
        assert(raws@.take(raws.len() as int) =~= raws@);
    }
    out
}

/// Enumerates all retained bound sockets for the selected protocols.
/// Fails with `NetworkError` exactly when the kernel query itself fails.
pub fn get_listening_sockets(filter: ProtocolFilter) -> (r: PdResult<Vec<BoundSocket>>)
    ensures
        r matches Err(e) ==> e matches PortDetectiveError::NetworkError(_),
        r matches Ok(v) ==> forall|i: int|
            0 <= i < v@.len() ==> spec_matches_filter(#[trigger] v@[i].protocol, filter),
{
    match fetch_socket_table(filter) {
        Err(msg) => Err(PortDetectiveError::NetworkError(msg)),
        Ok(table) => {
            let mut raws: Vec<RawSocket> = Vec::new();
            let mut i: usize = 0;
            while i < table.len()
                decreases table.len() - i,
            {
                raws.push(raw_of_socket(&table[i]));
                i = i + 1;
            }
            let out = collect_bound_sockets(&raws, filter);
            proof {
                lemma_collect_matches_filter(raws@, filter);
            }
            Ok(out)
        },
    }
}

/// The sockets of a list that are bound to the given port, in order.
pub open spec fn spec_filter_port(s: Seq<BoundSocket>, port: u16) -> Seq<BoundSocket>
    decreases s.len(),
{
    if s.len() == 0 {
        Seq::empty()
    } else {
        spec_filter_port(s.drop_last(), port) + if s.last().port == port {
            seq![s.last()]
        } else {
            Seq::<BoundSocket>::empty()
        }
    }
}

/// Every socket surviving the port filter has that port, and came from the
/// input list.
pub proof fn lemma_filter_port_elements(s: Seq<BoundSocket>, port: u16)
    ensures
        forall|i: int|
            0 <= i < spec_filter_port(s, port).len() ==> (#[trigger] spec_filter_port(s, port)[i]).port
                == port,
        forall|i: int|
            0 <= i < spec_filter_port(s, port).len() ==> exists|j: int|
                0 <= j < s.len() && #[trigger] spec_filter_port(s, port)[i] == s[j],
    decreases s.len(),
{
    if s.len() > 0 {
        lemma_filter_port_elements(s.drop_last(), port);
        assert forall|i: int| 0 <= i < spec_filter_port(s, port).len() implies exists|j: int|
            0 <= j < s.len() && #[trigger] spec_filter_port(s, port)[i] == s[j] by {
            if i < spec_filter_port(s.drop_last(), port).len() {
                let j = choose|j: int|
                    0 <= j < s.drop_last().len() && spec_filter_port(s.drop_last(), port)[i] == s.drop_last()[j];
                assert(s.drop_last()[j] == s[j]);
            } else {
                assert(spec_filter_port(s, port)[i] == s[s.len() - 1]);
            }
        }
    }
}

/// Keeps the sockets bound to the given port, in discovery order.
pub fn filter_by_port(sockets: &Vec<BoundSocket>, port: u16) -> (out: Vec<BoundSocket>)
    ensures
        out@ == spec_filter_port(sockets@, port),
{
    let mut out: Vec<BoundSocket> = Vec::new();
    let mut i: usize = 0;
    while i < sockets.len()
        invariant
            i <= sockets.len(),
            out@ == spec_filter_port(sockets@.take(i as int), port),
        decreases sockets.len() - i,
    {
        proof {
            assert(sockets@.take(i + 1 as int).drop_last() =~= sockets@.take(i as int));
            assert(sockets@.take(i + 1 as int).last() == sockets@[i as int]);
        }
        if sockets[i].port == port {
            out.push(sockets[i].clone());
        } else {
            proof {
                assert(out@ =~= spec_filter_port(sockets@.take(i + 1 as int), port));
            }
        }
        i = i + 1;
    }
    proof {
        assert(sockets@.take(sockets.len() as int) =~= sockets@);
    }
    out
}

/// Finds all retained sockets bound to a specific port.  Fails with
/// `NetworkError` exactly when the kernel query itself fails; an empty
/// result means the port is free.
pub fn find_processes_by_port(port: u16, filter: ProtocolFilter) -> (r: PdResult<
    Vec<BoundSocket>,
>)
    ensures
        r matches Err(e) ==> e matches PortDetectiveError::NetworkError(_),
        r matches Ok(v) ==> forall|i: int| 0 <= i < v@.len() ==> (#[trigger] v@[i]).port == port,
        r matches Ok(v) ==> forall|i: int|
            0 <= i < v@.len() ==> spec_matches_filter(#[trigger] v@[i].protocol, filter),
{
    match get_listening_sockets(filter) {
        Err(e) => Err(e),
        Ok(sockets) => {
            let out = filter_by_port(&sockets, port);
            proof {
                lemma_filter_port_elements(sockets@, port);
            }
            Ok(out)
        },
    }
}

/// Groups sockets by port number: a port is present exactly when some
/// socket is bound to it, and its group is exactly the sockets bound to
/// it, in discovery order.
pub fn group_by_port(sockets: Vec<BoundSocket>) -> (m: HashMap<u16, Vec<BoundSocket>>)
    ensures
        forall|p: u16| m@.contains_key(p) <==> spec_filter_port(sockets@, p).len() > 0,
        forall|p: u16|
            m@.contains_key(p) ==> (#[trigger] m@[p])@ == spec_filter_port(sockets@, p),
{
    let ghost all = sockets@;
    let mut m: HashMap<u16, Vec<BoundSocket>> = HashMap::new();
    let mut rest = sockets;
    let ghost mut i: int = 0;
    while rest.len() > 0
        invariant
            0 <= i <= all.len(),
            rest@ == all.skip(i),
            forall|p: u16| m@.contains_key(p) <==> spec_filter_port(all.take(i), p).len() > 0,
            forall|p: u16|
                m@.contains_key(p) ==> (#[trigger] m@[p])@ == spec_filter_port(all.take(i), p),
        decreases rest.len(),
    {
        let ghost m_before = m@;
        let s = rest.remove(0);
        proof {
            assert(s == all[i]);
            assert(all.skip(i).remove(0) =~= all.skip(i + 1));
            assert(all.take(i + 1).drop_last() =~= all.take(i));
            assert(all.take(i + 1).last() == all[i]);
        }
        let port = s.port;
        let ghost group_before = spec_filter_port(all.take(i), port);
        let mut list = match m.remove(&port) {
            Some(v) => v,
            None => Vec::new(),
        };
        proof {
            assert(list@ =~= group_before);
        }
        list.push(s);
        m.insert(port, list);
        proof {
            i = i + 1;
            assert(spec_filter_port(all.take(i), port) =~= group_before + seq![s]);
            assert(m@ =~= m_before.insert(port, list));
            assert forall|p: u16| m@.contains_key(p) <==> spec_filter_port(
                all.take(i),
                p,
            ).len() > 0 by {
                if p != port {
                    assert(spec_filter_port(all.take(i), p) =~= spec_filter_port(
                        all.take(i - 1),
                        p,
                    ));
                    assert(m@.contains_key(p) == m_before.contains_key(p));
                }
            }
            assert forall|p: u16| m@.contains_key(p) implies (#[trigger] m@[p])@
                == spec_filter_port(all.take(i), p) by {
                if p != port {
                    assert(spec_filter_port(all.take(i), p) =~= spec_filter_port(
                        all.take(i - 1),
                        p,
                    ));
                    assert(m@[p] == m_before[p]);
                }
            }
        }
    }
    proof {
        assert(all.take(i) =~= all);
    }
    m
}

/// Enumerates all retained bound sockets for the selected protocols,
/// grouped by port number.  Every present port has a non-empty group whose
/// sockets are all bound to it.  Fails with `NetworkError` exactly when
/// the kernel query itself fails.
pub fn get_listening_ports(filter: ProtocolFilter) -> (r: PdResult<
    HashMap<u16, Vec<BoundSocket>>,
>)
    ensures
        r matches Err(e) ==> e matches PortDetectiveError::NetworkError(_),
        r matches Ok(m) ==> forall|p: u16| m@.contains_key(p) ==> (#[trigger] m@[p])@.len() > 0,
        r matches Ok(m) ==> forall|p: u16, k: int|
            m@.contains_key(p) && 0 <= k < (#[trigger] m@[p])@.len() ==> ((#[trigger] m@[p]@[k]).port
                == p && spec_matches_filter(m@[p]@[k].protocol, filter)),
{
    match get_listening_sockets(filter) {
        Err(e) => Err(e),
        Ok(sockets) => {
            let ghost socks = sockets@;
            let m = group_by_port(sockets);
            proof {
                assert forall|p: u16, k: int|
                    m@.contains_key(p) && 0 <= k < (#[trigger] m@[p])@.len() implies ((
                #[trigger] m@[p]@[k]).port == p && spec_matches_filter(
                    m@[p]@[k].protocol,
                    filter,
                )) by {
                    lemma_filter_port_elements(socks, p);
                    let e = m@[p]@[k];
                    let j = choose|j: int|
                        0 <= j < socks.len() && #[trigger] spec_filter_port(socks, p)[k]
                            == socks[j];
                    assert(spec_matches_filter(socks[j].protocol, filter));
                }
            }
            Ok(m)
        },
    }
}

} // verus!
