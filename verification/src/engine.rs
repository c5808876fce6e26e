//! The correlator and report builder: joining enumerated sockets to
//! resolved process records, deduplicating per the query shape, and
//! assembling the reports, the listing and the kill plan.

use vstd::prelude::*;
use crate::cli::ProtocolFilter;
use crate::error::{PdResult, PortDetectiveError};
use crate::model::{PortEntry, PortReport, ProcessInfo, Protocol, flatten_command,
    spec_flatten_command};
use crate::net::{BoundSocket, find_processes_by_port, get_listening_sockets};
use crate::proc::{SignalKind, inspect, spec_signal_for, signal_for};

verus! {

broadcast use
    vstd::seq_lib::group_to_multiset_ensures,
    vstd::seq_lib::to_multiset_insert,
    vstd::seq_lib::to_multiset_remove,
    vstd::multiset::group_multiset_axioms;

/// The protocol echoed into reports for a query with this filter.
pub open spec fn spec_protocol_of_filter(f: ProtocolFilter) -> Protocol {
    match f {
        ProtocolFilter::TcpOnly => Protocol::Tcp,
        ProtocolFilter::UdpOnly => Protocol::Udp,
        ProtocolFilter::Both => Protocol::Both,
    }
}

/// Returns the protocol echoed into reports for a query with this filter.
pub fn protocol_of_filter(f: ProtocolFilter) -> (p: Protocol)
    ensures
        p == spec_protocol_of_filter(f),
{
    match f {
        ProtocolFilter::TcpOnly => Protocol::Tcp,
        ProtocolFilter::UdpOnly => Protocol::Udp,
        ProtocolFilter::Both => Protocol::Both,
    }
}

/// Whether some socket in the list is owned by the given PID.
pub open spec fn spec_has_pid(s: Seq<BoundSocket>, pid: u32) -> bool {
    exists|j: int| 0 <= j < s.len() && (#[trigger] s[j]).pid == pid
}

/// Returns whether some socket in the list is owned by the given PID.
fn contains_pid(s: &Vec<BoundSocket>, pid: u32) -> (r: bool)
    ensures
        r == spec_has_pid(s@, pid),
{
    let mut i: usize = 0;
    while i < s.len()
        invariant
            i <= s.len(),
            forall|j: int| 0 <= j < i ==> (#[trigger] s@[j]).pid != pid,
        decreases s.len() - i,
    {
        if s[i].pid == pid {
            return true;
        }
        i = i + 1;
    }
    false
}

/// The sockets of a list deduplicated by owning PID, first seen wins.
pub open spec fn spec_dedup_by_pid(s: Seq<BoundSocket>) -> Seq<BoundSocket>
    decreases s.len(),
{
    if s.len() == 0 {
        Seq::empty()
    } else {
        let d = spec_dedup_by_pid(s.drop_last());
        if spec_has_pid(d, s.last().pid) {
            d
        } else {
            d + seq![s.last()]
        }
    }
}

/// No two sockets of the list share an owning PID.
pub open spec fn spec_socket_pids_distinct(s: Seq<BoundSocket>) -> bool {
    forall|i: int, j: int| 0 <= i < j < s.len() ==> (#[trigger] s[i]).pid != (#[trigger] s[j]).pid
}

/// Deduplication by PID leaves no two sockets with the same owner.
pub proof fn lemma_dedup_pids_distinct(s: Seq<BoundSocket>)
    ensures
        spec_socket_pids_distinct(spec_dedup_by_pid(s)),
    decreases s.len(),
{
    if s.len() > 0 {
        lemma_dedup_pids_distinct(s.drop_last());
        let d = spec_dedup_by_pid(s.drop_last());
        if !spec_has_pid(d, s.last().pid) {
            let out = d + seq![s.last()];
            assert forall|i: int, j: int| 0 <= i < j < out.len() implies (#[trigger] out[i]).pid != (
            #[trigger] out[j]).pid by {
                if j == out.len() - 1 {
                    assert(out[i] == d[i]);
                    assert(!spec_has_pid(d, s.last().pid));
                }
            }
        }
    }
}

/// Inspecting a port whose sockets are all owned by one PID resolves that
/// PID exactly once: deduplication keeps exactly the first socket.
pub proof fn lemma_dedup_single_pid(s: Seq<BoundSocket>, pid: u32)
    requires
        s.len() > 0,
        forall|i: int| 0 <= i < s.len() ==> (#[trigger] s[i]).pid == pid,
    ensures
        spec_dedup_by_pid(s).len() == 1,
        spec_dedup_by_pid(s)[0] == s[0],
    decreases s.len(),
{
    if s.len() == 1 {
        assert(spec_dedup_by_pid(s.drop_last()) =~= Seq::<BoundSocket>::empty());
        assert(spec_dedup_by_pid(s) =~= Seq::<BoundSocket>::empty() + seq![s.last()]);
        assert(spec_dedup_by_pid(s)[0] == s[0]);
    } else {
        lemma_dedup_single_pid(s.drop_last(), pid);
        let d = spec_dedup_by_pid(s.drop_last());
        assert(d[0].pid == pid);
        assert(spec_has_pid(d, s.last().pid));
    }
}

/// Inspecting a port whose sockets are all owned by one PID yields
/// exactly one process record whenever that PID resolves: the owners are
/// deduplicated before resolution, so the single surviving target
/// contributes the single record.
pub proof fn lemma_single_owner_single_record(
    s: Seq<BoundSocket>,
    pid: u32,
    outcomes: Seq<PdResult<ProcessInfo>>,
)
    requires
        s.len() > 0,
        forall|i: int| 0 <= i < s.len() ==> (#[trigger] s[i]).pid == pid,
        outcomes.len() == spec_dedup_by_pid(s).len(),
        forall|i: int| 0 <= i < outcomes.len() ==> (#[trigger] outcomes[i]) is Ok,
    ensures
        spec_successes(outcomes).len() == 1,
{
    lemma_dedup_single_pid(s, pid);
    assert(outcomes.len() == 1);
    assert(outcomes.drop_last().len() == 0);
    assert(spec_successes(outcomes.drop_last()).len() == 0);
    assert(outcomes.last() is Ok);
}

/// Every socket surviving PID deduplication came from the input list.
pub proof fn lemma_dedup_by_pid_sound(s: Seq<BoundSocket>)
    ensures
        forall|k: int|
            0 <= k < spec_dedup_by_pid(s).len() ==> exists|j: int|
                0 <= j < s.len() && #[trigger] spec_dedup_by_pid(s)[k] == s[j],
    decreases s.len(),
{
    if s.len() > 0 {
        lemma_dedup_by_pid_sound(s.drop_last());
        let prefix = spec_dedup_by_pid(s.drop_last());
        let full = spec_dedup_by_pid(s);
        assert forall|k: int| 0 <= k < full.len() implies exists|j: int|
            0 <= j < s.len() && #[trigger] full[k] == s[j] by {
            if k < prefix.len() {
                let j = choose|j: int|
                    0 <= j < s.drop_last().len() && #[trigger] prefix[k] == s.drop_last()[j];
                assert(full[k] == s[j]);
            } else {
                assert(full[k] == s[s.len() - 1]);
            }
        }
    }
}

/// Deduplicates a socket list by owning PID, first seen wins.
pub fn dedup_by_pid(sockets: &Vec<BoundSocket>) -> (out: Vec<BoundSocket>)
    ensures
        out@ == spec_dedup_by_pid(sockets@),
{
    let mut out: Vec<BoundSocket> = Vec::new();
    let mut i: usize = 0;
    while i < sockets.len()
        invariant
            i <= sockets.len(),
            out@ == spec_dedup_by_pid(sockets@.take(i as int)),
        decreases sockets.len() - i,
    {
        proof {
            assert(sockets@.take(i + 1 as int).drop_last() =~= sockets@.take(i as int));
            assert(sockets@.take(i + 1 as int).last() == sockets@[i as int]);
        }
        if !contains_pid(&out, sockets[i].pid) {
            out.push(sockets[i].clone());
        }
        i = i + 1;
    }
    proof {
        assert(sockets@.take(sockets.len() as int) =~= sockets@);
    }
    out
}

/// The records of the resolutions that succeeded, in order; failed
/// resolutions are dropped silently.
pub open spec fn spec_successes(outcomes: Seq<PdResult<ProcessInfo>>) -> Seq<ProcessInfo>
    decreases outcomes.len(),
{
    if outcomes.len() == 0 {
        Seq::empty()
    } else {
        spec_successes(outcomes.drop_last()) + match outcomes.last() {
            Ok(rec) => seq![rec],
            Err(_) => Seq::<ProcessInfo>::empty(),
        }
    }
}

/// No two records of the list share a PID.
pub open spec fn spec_pids_distinct(procs: Seq<ProcessInfo>) -> bool {
    forall|i: int, j: int| 0 <= i < j < procs.len() ==> (#[trigger] procs[i]).pid != (
    #[trigger] procs[j]).pid
}

/// When each successful outcome carries the PID and protocol of its
/// target socket, and the targets' PIDs are distinct, the surviving
/// records have distinct PIDs, are well formed, and each carries the PID
/// and protocol of some target.
pub proof fn lemma_successes_aligned(
    outcomes: Seq<PdResult<ProcessInfo>>,
    targets: Seq<BoundSocket>,
)
    requires
        outcomes.len() == targets.len(),
        forall|i: int|
            0 <= i < outcomes.len() ==> ((#[trigger] outcomes[i]) matches Ok(rec) ==> rec.pid
                == targets[i].pid && rec.protocol == targets[i].protocol && rec.wf()),
        spec_socket_pids_distinct(targets),
    ensures
        spec_pids_distinct(spec_successes(outcomes)),
        forall|k: int|
            0 <= k < spec_successes(outcomes).len() ==> (#[trigger] spec_successes(
                outcomes,
            )[k]).wf(),
        forall|k: int|
            0 <= k < spec_successes(outcomes).len() ==> exists|j: int|
                0 <= j < targets.len() && (#[trigger] spec_successes(outcomes)[k]).pid
                    == targets[j].pid && spec_successes(outcomes)[k].protocol
                    == targets[j].protocol,
    decreases outcomes.len(),
{
    if outcomes.len() > 0 {
        lemma_successes_aligned(outcomes.drop_last(), targets.drop_last());
        let prefix = spec_successes(outcomes.drop_last());
        let full = spec_successes(outcomes);
        match outcomes.last() {
            Ok(rec) => {
                assert(rec.pid == targets.last().pid);
                assert(full =~= prefix + seq![rec]);
                assert forall|i: int, j: int| 0 <= i < j < full.len() implies (
                #[trigger] full[i]).pid != (#[trigger] full[j]).pid by {
                    if j == full.len() - 1 {
                        let jj = choose|jj: int|
                            0 <= jj < targets.drop_last().len() && prefix[i].pid
                                == targets.drop_last()[jj].pid && prefix[i].protocol
                                == targets.drop_last()[jj].protocol;
                        assert(targets[jj].pid != targets[targets.len() - 1].pid);
                    }
                }
                assert forall|k: int| 0 <= k < full.len() implies exists|j: int|
                    0 <= j < targets.len() && (#[trigger] full[k]).pid == targets[j].pid
                        && full[k].protocol == targets[j].protocol by {
                    if k < full.len() - 1 {
                        let jj = choose|jj: int|
                            0 <= jj < targets.drop_last().len() && prefix[k].pid
                                == targets.drop_last()[jj].pid && prefix[k].protocol
                                == targets.drop_last()[jj].protocol;
                        assert(full[k].pid == targets[jj].pid);
                        assert(full[k].protocol == targets[jj].protocol);
                    } else {
                        assert(full[k].pid == targets[targets.len() - 1].pid);
                    }
                }
            },
            Err(_) => {
                assert(full =~= prefix);
                assert forall|k: int| 0 <= k < full.len() implies exists|j: int|
                    0 <= j < targets.len() && (#[trigger] full[k]).pid == targets[j].pid
                        && full[k].protocol == targets[j].protocol by {
                    let jj = choose|jj: int|
                        0 <= jj < targets.drop_last().len() && prefix[k].pid
                            == targets.drop_last()[jj].pid && prefix[k].protocol
                            == targets.drop_last()[jj].protocol;
                    assert(full[k].pid == targets[jj].pid);
                    assert(full[k].protocol == targets[jj].protocol);
                }
            },
        }
    }
}

/// Builds the report for one inspected port from the resolution outcomes
/// of its deduplicated owners: the surviving records make the port
/// `InUse`; with none surviving the port is `Free`.
pub fn report_from_outcomes(
    port: u16,
    protocol: Protocol,
    outcomes: Vec<PdResult<ProcessInfo>>,
) -> (rep: PortReport)
    ensures
        rep.port == port,
        rep.protocol == protocol,
        rep.processes@ == spec_successes(outcomes@),
        rep.wf(),
        rep.status is Free <==> spec_successes(outcomes@).len() == 0,
{
    let ghost all = outcomes@;
    let mut rest = outcomes;
    let mut procs: Vec<ProcessInfo> = Vec::new();
    let ghost mut i: int = 0;
    while rest.len() > 0
        invariant
            0 <= i <= all.len(),
            rest@ == all.skip(i),
            procs@ == spec_successes(all.take(i)),
        decreases rest.len(),
    {
        let o = rest.remove(0);
        proof {
            assert(o == all[i]);
            assert(all.skip(i).remove(0) =~= all.skip(i + 1));
            assert(all.take(i + 1).drop_last() =~= all.take(i));
            assert(all.take(i + 1).last() == all[i]);
        }
        match o {
            Ok(rec) => procs.push(rec),
            Err(_) => {
                proof {
                    assert(procs@ =~= spec_successes(all.take(i + 1)));
                }
            },
        }
        proof {
            i = i + 1;
        }
    }
    proof {
        assert(all.take(i) =~= all);
    }
    if procs.len() == 0 {
        PortReport::free(port, protocol)
    } else {
        PortReport::in_use(port, protocol, procs)
    }
}

/// Inspects one port: enumerates its sockets, resolves each distinct
/// owning PID at most once (first seen wins), silently drops owners that
/// exited in between, and reports the port `Free` exactly when no record
/// survived.  Fails only when socket enumeration itself fails.
pub fn inspect_port(port: u16, filter: ProtocolFilter) -> (r: PdResult<PortReport>)
    ensures
        r matches Err(e) ==> e matches PortDetectiveError::NetworkError(_),
        r matches Ok(rep) ==> {
            &&& rep.port == port
            &&& rep.protocol == spec_protocol_of_filter(filter)
            &&& rep.wf()
            &&& spec_pids_distinct(rep.processes@)
            &&& forall|k: int| 0 <= k < rep.processes@.len() ==> (#[trigger] rep.processes@[k]).wf()
            &&& forall|k: int|
                0 <= k < rep.processes@.len() ==> crate::net::spec_matches_filter(
                    (#[trigger] rep.processes@[k]).protocol,
                    filter,
                )
        },
{
    let sockets = match find_processes_by_port(port, filter) {
        Ok(s) => s,
        Err(e) => {
            return Err(e);
        },
    };
    let targets = dedup_by_pid(&sockets);
    proof {
        lemma_dedup_pids_distinct(sockets@);
        lemma_dedup_by_pid_sound(sockets@);
    }
    let mut outcomes: Vec<PdResult<ProcessInfo>> = Vec::new();
    let mut i: usize = 0;
    while i < targets.len()
        invariant
            i <= targets.len(),
            outcomes@.len() == i,
            spec_socket_pids_distinct(targets@),
            forall|k: int|
                0 <= k < i ==> ((#[trigger] outcomes@[k]) matches Ok(rec) ==> rec.pid
                    == targets@[k].pid && rec.protocol == targets@[k].protocol && rec.wf()),
        decreases targets.len() - i,
    {
        let o = inspect(targets[i].pid, targets[i].protocol);
        outcomes.push(o);
        i = i + 1;
    }
    proof {
        lemma_successes_aligned(outcomes@, targets@);
    }
    let rep = report_from_outcomes(port, protocol_of_filter(filter), outcomes);
    proof {
        assert forall|k: int| 0 <= k < rep.processes@.len() implies crate::net::spec_matches_filter(
            (#[trigger] rep.processes@[k]).protocol,
            filter,
        ) by {
            let j = choose|j: int|
                0 <= j < targets@.len() && (#[trigger] rep.processes@[k]).pid == targets@[j].pid
                    && rep.processes@[k].protocol == targets@[j].protocol;
            let j2 = choose|j2: int|
                0 <= j2 < sockets@.len() && #[trigger] spec_dedup_by_pid(sockets@)[j]
                    == sockets@[j2];
            assert(targets@[j].protocol == sockets@[j2].protocol);
        }
    }
    Ok(rep)
}

/// Whether some socket in the list has the given (port, PID) pair.
pub open spec fn spec_has_port_pid(s: Seq<BoundSocket>, port: u16, pid: u32) -> bool {
    exists|j: int| 0 <= j < s.len() && (#[trigger] s[j]).port == port && s[j].pid == pid
}

/// Returns whether some socket in the list has the given (port, PID) pair.
fn contains_port_pid(s: &Vec<BoundSocket>, port: u16, pid: u32) -> (r: bool)
    ensures
        r == spec_has_port_pid(s@, port, pid),
{
    let mut i: usize = 0;
    while i < s.len()
        invariant
            i <= s.len(),
            forall|j: int| 0 <= j < i ==> !((#[trigger] s@[j]).port == port && s@[j].pid == pid),
        decreases s.len() - i,
    {
        if s[i].port == port && s[i].pid == pid {
            return true;
        }
        i = i + 1;
    }
    false
}

/// The sockets of a list deduplicated by (port, PID), first seen wins: the
/// same process may own sockets on several ports, and keeps one row per
/// port it owns.
pub open spec fn spec_dedup_by_port_pid(s: Seq<BoundSocket>) -> Seq<BoundSocket>
    decreases s.len(),
{
    if s.len() == 0 {
        Seq::empty()
    } else {
        let d = spec_dedup_by_port_pid(s.drop_last());
        if spec_has_port_pid(d, s.last().port, s.last().pid) {
            d
        } else {
            d + seq![s.last()]
        }
    }
}

/// Every (port, PID) pair of the input survives deduplication.
pub proof fn lemma_dedup_port_pid_complete(s: Seq<BoundSocket>)
    ensures
        forall|i: int|
            0 <= i < s.len() ==> spec_has_port_pid(
                spec_dedup_by_port_pid(s),
                (#[trigger] s[i]).port,
                s[i].pid,
            ),
    decreases s.len(),
{
    if s.len() > 0 {
        lemma_dedup_port_pid_complete(s.drop_last());
        let d = spec_dedup_by_port_pid(s.drop_last());
        let out = spec_dedup_by_port_pid(s);
        assert forall|i: int| 0 <= i < s.len() implies spec_has_port_pid(
            out,
            (#[trigger] s[i]).port,
            s[i].pid,
        ) by {
            if i < s.len() - 1 {
                assert(s.drop_last()[i] == s[i]);
                let j = choose|j: int|
                    0 <= j < d.len() && (#[trigger] d[j]).port == s[i].port && d[j].pid == s[i].pid;
                if !spec_has_port_pid(d, s.last().port, s.last().pid) {
                    assert(out[j] == d[j]);
                }
            } else {
                if !spec_has_port_pid(d, s.last().port, s.last().pid) {
                    assert(out[out.len() - 1] == s.last());
                }
            }
        }
    }
}

/// A PID bound to two different ports keeps one listing row per port:
/// deduplication is by the (port, PID) pair, never by PID alone.
pub proof fn lemma_listing_keeps_row_per_port(s: Seq<BoundSocket>, i: int, j: int)
    requires
        0 <= i < s.len(),
        0 <= j < s.len(),
        s[i].pid == s[j].pid,
        s[i].port != s[j].port,
    ensures
        spec_has_port_pid(spec_dedup_by_port_pid(s), s[i].port, s[i].pid),
        spec_has_port_pid(spec_dedup_by_port_pid(s), s[j].port, s[j].pid),
{
    lemma_dedup_port_pid_complete(s);
}

/// Every socket surviving (port, PID) deduplication came from the input
/// list.
pub proof fn lemma_dedup_by_port_pid_sound(s: Seq<BoundSocket>)
    ensures
        forall|k: int|
            0 <= k < spec_dedup_by_port_pid(s).len() ==> exists|j: int|
                0 <= j < s.len() && #[trigger] spec_dedup_by_port_pid(s)[k] == s[j],
    decreases s.len(),
{
    if s.len() > 0 {
        lemma_dedup_by_port_pid_sound(s.drop_last());
        let prefix = spec_dedup_by_port_pid(s.drop_last());
        let full = spec_dedup_by_port_pid(s);
        assert forall|k: int| 0 <= k < full.len() implies exists|j: int|
            0 <= j < s.len() && #[trigger] full[k] == s[j] by {
            if k < prefix.len() {
                let j = choose|j: int|
                    0 <= j < s.drop_last().len() && #[trigger] prefix[k] == s.drop_last()[j];
                assert(full[k] == s[j]);
            } else {
                assert(full[k] == s[s.len() - 1]);
            }
        }
    }
}

/// Deduplicates a socket list by the (port, PID) pair, first seen wins.
pub fn dedup_by_port_pid(sockets: &Vec<BoundSocket>) -> (out: Vec<BoundSocket>)
    ensures
        out@ == spec_dedup_by_port_pid(sockets@),
{
    let mut out: Vec<BoundSocket> = Vec::new();
    let mut i: usize = 0;
    while i < sockets.len()
        invariant
            i <= sockets.len(),
            out@ == spec_dedup_by_port_pid(sockets@.take(i as int)),
        decreases sockets.len() - i,
    {
        proof {
            assert(sockets@.take(i + 1 as int).drop_last() =~= sockets@.take(i as int));
            assert(sockets@.take(i + 1 as int).last() == sockets@[i as int]);
        }
        if !contains_port_pid(&out, sockets[i].port, sockets[i].pid) {
            out.push(sockets[i].clone());
        }
        i = i + 1;
    }
    proof {
        assert(sockets@.take(sockets.len() as int) =~= sockets@);
    }
    out
}

/// How a listing row relates to the socket and the record it was built
/// from: location fields from the socket, identity fields from the record,
/// and the displayed command flattened from the record's argument list.
pub open spec fn spec_entry_matches(e: PortEntry, t: BoundSocket, rec: ProcessInfo) -> bool {
    &&& e.port == t.port
    &&& e.protocol == t.protocol
    &&& e.pid == t.pid
    &&& e.name == rec.name
    &&& e.user == rec.user
    &&& e.command@ == spec_flatten_command(rec.name@, rec.command.deep_view())
}

/// How a listing relates to its targets and their resolution outcomes:
/// one row per successful resolution, in order, and none for a failed one.
pub open spec fn spec_entries_match(
    out: Seq<PortEntry>,
    targets: Seq<BoundSocket>,
    outcomes: Seq<PdResult<ProcessInfo>>,
) -> bool
    decreases outcomes.len(),
{
    if targets.len() != outcomes.len() {
        false
    } else if outcomes.len() == 0 {
        out.len() == 0
    } else {
        match outcomes.last() {
            Ok(rec) => out.len() > 0 && spec_entry_matches(out.last(), targets.last(), rec)
                && spec_entries_match(out.drop_last(), targets.drop_last(), outcomes.drop_last()),
            Err(_) => spec_entries_match(out, targets.drop_last(), outcomes.drop_last()),
        }
    }
}

/// Builds the listing rows for the targets whose resolution succeeded;
/// failed resolutions are dropped silently, as in the inspect path.
pub fn entries_from(targets: &Vec<BoundSocket>, outcomes: Vec<PdResult<ProcessInfo>>) -> (out: Vec<
    PortEntry,
>)
    requires
        targets@.len() == outcomes@.len(),
    ensures
        spec_entries_match(out@, targets@, outcomes@),
{
    let ghost all = outcomes@;
    let mut rest = outcomes;
    let mut out: Vec<PortEntry> = Vec::new();
    let mut i: usize = 0;
    while i < targets.len()
        invariant
            i <= targets.len(),
            targets@.len() == all.len(),
            rest@ == all.skip(i as int),
            spec_entries_match(out@, targets@.take(i as int), all.take(i as int)),
        decreases targets.len() - i,
    {
        let o = rest.remove(0);
        proof {
            assert(o == all[i as int]);
            assert(all.skip(i as int).remove(0) =~= all.skip(i + 1 as int));
            assert(all.take(i + 1 as int).drop_last() =~= all.take(i as int));
            assert(all.take(i + 1 as int).last() == all[i as int]);
            assert(targets@.take(i + 1 as int).drop_last() =~= targets@.take(i as int));
            assert(targets@.take(i + 1 as int).last() == targets@[i as int]);
        }
        match o {
            Ok(rec) => {
                let command = flatten_command(&rec.name, &rec.command);
                let ghost out_prev = out@;
                let entry = PortEntry {
                    port: targets[i].port,
                    protocol: targets[i].protocol,
                    pid: targets[i].pid,
                    name: rec.name,
                    user: rec.user,
                    command,
                };
                out.push(entry);
                proof {
                    assert(out@.drop_last() =~= out_prev);
                    assert(out@.last() == entry);
                }
            },
            Err(_) => {},
        }
        i = i + 1;
    }
    proof {
        assert(all.take(all.len() as int) =~= all);
        assert(targets@.take(targets@.len() as int) =~= targets@);
    }
    out
}

/// Every listing row takes its port, protocol and PID from some target
/// socket.
pub proof fn lemma_entries_from_targets(
    out: Seq<PortEntry>,
    targets: Seq<BoundSocket>,
    outcomes: Seq<PdResult<ProcessInfo>>,
)
    requires
        spec_entries_match(out, targets, outcomes),
    ensures
        forall|k: int|
            0 <= k < out.len() ==> exists|j: int|
                0 <= j < targets.len() && (#[trigger] out[k]).port == targets[j].port
                    && out[k].protocol == targets[j].protocol && out[k].pid == targets[j].pid,
    decreases outcomes.len(),
{
    if outcomes.len() > 0 {
        match outcomes.last() {
            Ok(rec) => {
                lemma_entries_from_targets(out.drop_last(), targets.drop_last(),
                    outcomes.drop_last());
                assert forall|k: int| 0 <= k < out.len() implies exists|j: int|
                    0 <= j < targets.len() && (#[trigger] out[k]).port == targets[j].port
                        && out[k].protocol == targets[j].protocol && out[k].pid
                        == targets[j].pid by {
                    if k < out.len() - 1 {
                        let j = choose|j: int|
                            0 <= j < targets.drop_last().len() && (#[trigger] out.drop_last()[k]).port
                                == targets.drop_last()[j].port && out.drop_last()[k].protocol
                                == targets.drop_last()[j].protocol && out.drop_last()[k].pid
                                == targets.drop_last()[j].pid;
                        assert(out[k].port == targets[j].port);
                    } else {
                        assert(out[k].port == targets[targets.len() - 1].port);
                    }
                }
            },
            Err(_) => {
                lemma_entries_from_targets(out, targets.drop_last(), outcomes.drop_last());
                assert forall|k: int| 0 <= k < out.len() implies exists|j: int|
                    0 <= j < targets.len() && (#[trigger] out[k]).port == targets[j].port
                        && out[k].protocol == targets[j].protocol && out[k].pid
                        == targets[j].pid by {
                    let j = choose|j: int|
                        0 <= j < targets.drop_last().len() && (#[trigger] out[k]).port
                            == targets.drop_last()[j].port && out[k].protocol
                            == targets.drop_last()[j].protocol && out[k].pid
                            == targets.drop_last()[j].pid;
                    assert(out[k].port == targets[j].port);
                }
            },
        }
    }
}

/// Two lists with equal multisets hold the same rows: each row of one
/// appears in the other.
proof fn lemma_multiset_membership(a: Seq<PortEntry>, b: Seq<PortEntry>)
    requires
        a.to_multiset() == b.to_multiset(),
    ensures
        forall|k: int| 0 <= k < a.len() ==> b.contains(#[trigger] a[k]),
{
    assert forall|k: int| 0 <= k < a.len() implies b.contains(#[trigger] a[k]) by {
        let x = a[k];
        assert(a.contains(x)) by {
            assert(0 <= k < a.len() && a[k] == x);
        }
        assert(a.to_multiset().count(x) > 0);
        assert(b.to_multiset().count(x) > 0);
    }
}

/// The listing is ordered by port number, non-decreasing.
pub open spec fn spec_sorted_by_port(s: Seq<PortEntry>) -> bool {
    forall|i: int, j: int| 0 <= i < j < s.len() ==> (#[trigger] s[i]).port <= (#[trigger] s[j]).port
}

/// The rows of a listing that carry the given port, in order.
pub open spec fn spec_rows_with_port(s: Seq<PortEntry>, p: u16) -> Seq<PortEntry>
    decreases s.len(),
{
    if s.len() == 0 {
        Seq::empty()
    } else {
        spec_rows_with_port(s.drop_last(), p) + if s.last().port == p {
            seq![s.last()]
        } else {
            Seq::<PortEntry>::empty()
        }
    }
}

/// Selecting the rows of one port distributes over concatenation.
proof fn lemma_rows_concat(a: Seq<PortEntry>, b: Seq<PortEntry>, p: u16)
    ensures
        spec_rows_with_port(a + b, p) == spec_rows_with_port(a, p) + spec_rows_with_port(b, p),
    decreases b.len(),
{
    if b.len() == 0 {
        assert(a + b =~= a);
        assert(spec_rows_with_port(a, p) + spec_rows_with_port(b, p) =~= spec_rows_with_port(
            a,
            p,
        ));
    } else {
        lemma_rows_concat(a, b.drop_last(), p);
        assert((a + b).drop_last() =~= a + b.drop_last());
        assert((a + b).last() == b.last());
        assert(spec_rows_with_port(a + b, p) =~= spec_rows_with_port(a, p) + spec_rows_with_port(
            b,
            p,
        ));
    }
}

/// A list without the port contributes no rows for it.
proof fn lemma_rows_empty(s: Seq<PortEntry>, p: u16)
    requires
        forall|i: int| 0 <= i < s.len() ==> (#[trigger] s[i]).port != p,
    ensures
        spec_rows_with_port(s, p) == Seq::<PortEntry>::empty(),
    decreases s.len(),
{
    if s.len() > 0 {
        lemma_rows_empty(s.drop_last(), p);
        assert(spec_rows_with_port(s, p) =~= Seq::<PortEntry>::empty());
    }
}

/// The rows a single leading element contributes for a port.
proof fn lemma_rows_of_cons(e: PortEntry, rest: Seq<PortEntry>, p: u16)
    ensures
        p == e.port ==> spec_rows_with_port(seq![e] + rest, p) == seq![e] + spec_rows_with_port(
            rest,
            p,
        ),
        p != e.port ==> spec_rows_with_port(seq![e] + rest, p) == spec_rows_with_port(rest, p),
{
    lemma_rows_concat(seq![e], rest, p);
    assert(seq![e].drop_last() =~= Seq::<PortEntry>::empty());
    assert(spec_rows_with_port(Seq::<PortEntry>::empty(), p) =~= Seq::<PortEntry>::empty());
    if p == e.port {
        assert(spec_rows_with_port(seq![e], p) =~= seq![e]);
        assert(spec_rows_with_port(seq![e] + rest, p) =~= seq![e] + spec_rows_with_port(rest, p));
    } else {
        assert(spec_rows_with_port(seq![e], p) =~= Seq::<PortEntry>::empty());
        assert(spec_rows_with_port(seq![e] + rest, p) =~= spec_rows_with_port(rest, p));
    }
}

/// Inserting an element before every row of a strictly greater port adds
/// it at the end of its own port's rows and leaves every other port's
/// rows unchanged.
proof fn lemma_rows_after_insert(s: Seq<PortEntry>, pos: int, e: PortEntry, p: u16)
    requires
        0 <= pos <= s.len(),
        forall|m: int| pos <= m < s.len() ==> (#[trigger] s[m]).port > e.port,
    ensures
        p == e.port ==> spec_rows_with_port(s.insert(pos, e), p) == spec_rows_with_port(s, p)
            + seq![e],
        p != e.port ==> spec_rows_with_port(s.insert(pos, e), p) == spec_rows_with_port(s, p),
{
    let head = s.take(pos);
    let tail = s.skip(pos);
    assert(s.insert(pos, e) =~= (head + seq![e]) + tail);
    assert(s =~= head + tail);
    lemma_rows_concat(head, seq![e], p);
    lemma_rows_concat(head + seq![e], tail, p);
    lemma_rows_concat(head, tail, p);
    assert(seq![e].drop_last() =~= Seq::<PortEntry>::empty());
    assert(spec_rows_with_port(Seq::<PortEntry>::empty(), p) =~= Seq::<PortEntry>::empty());
    if p == e.port {
        assert forall|m2: int| 0 <= m2 < tail.len() implies (#[trigger] tail[m2]).port != p by {
            assert(tail[m2] == s[pos + m2]);
        }
        lemma_rows_empty(tail, p);
        assert(spec_rows_with_port(seq![e], p) =~= seq![e]);
        assert(spec_rows_with_port(s.insert(pos, e), p) =~= spec_rows_with_port(s, p) + seq![e]);
    } else {
        assert(spec_rows_with_port(seq![e], p) =~= Seq::<PortEntry>::empty());
        assert(spec_rows_with_port(s.insert(pos, e), p) =~= spec_rows_with_port(s, p));
    }
}

/// Sorts listing rows by port number, non-decreasing, keeping exactly the
/// given rows; for each port, its rows keep their relative order.
pub fn sort_entries_by_port(entries: Vec<PortEntry>) -> (out: Vec<PortEntry>)
    ensures
        spec_sorted_by_port(out@),
        out@.to_multiset() == entries@.to_multiset(),
        forall|p: u16| spec_rows_with_port(out@, p) == spec_rows_with_port(entries@, p),
{
    let ghost all = entries@;
    let mut rest = entries;
    let mut out: Vec<PortEntry> = Vec::new();
    proof {
        assert forall|p: u16|
            spec_rows_with_port(out@, p) + spec_rows_with_port(rest@, p) == spec_rows_with_port(
                all,
                p,
            ) by {
            assert(spec_rows_with_port(out@, p) + spec_rows_with_port(all, p)
                =~= spec_rows_with_port(all, p));
        }
    }
    while rest.len() > 0
        invariant
            spec_sorted_by_port(out@),
            out@.to_multiset().add(rest@.to_multiset()) == all.to_multiset(),
            forall|p: u16|
                spec_rows_with_port(out@, p) + spec_rows_with_port(rest@, p)
                    == spec_rows_with_port(all, p),
        decreases rest.len(),
    {
        let ghost out_before = out@;
        let ghost rest_before = rest@;
        let e = rest.remove(0);
        let mut pos: usize = 0;
        while pos < out.len() && out[pos].port <= e.port
            invariant
                pos <= out.len(),
                out@ == out_before,
                forall|m: int| 0 <= m < pos ==> (#[trigger] out@[m]).port <= e.port,
            decreases out.len() - pos,
        {
            pos = pos + 1;
        }
        proof {
            assert forall|m: int| pos <= m < out@.len() implies (#[trigger] out@[m]).port > e.port by {
                if m > pos {
                    assert(out@[pos as int].port <= out@[m].port);
                }
            }
        }
        out.insert(pos, e);
        proof {
            let new = out_before.insert(pos as int, e);
            assert forall|i: int, j: int| 0 <= i < j < new.len() implies (#[trigger] new[i]).port
                <= (#[trigger] new[j]).port by {
                if i < pos && j == pos {
                } else if i == pos && j > pos {
                } else if i < pos && j > pos {
                    assert(new[i] == out_before[i]);
                    assert(new[j] == out_before[j - 1]);
                } else if j < pos {
                    assert(new[i] == out_before[i]);
                    assert(new[j] == out_before[j]);
                } else if i > pos {
                    assert(new[i] == out_before[i - 1]);
                    assert(new[j] == out_before[j - 1]);
                }
            }
            assert(rest_before.remove(0).to_multiset() =~= rest_before.to_multiset().remove(
                rest_before[0],
            ));
            assert(out@.to_multiset().add(rest@.to_multiset()) =~= all.to_multiset());
            assert forall|p: u16|
                spec_rows_with_port(out@, p) + spec_rows_with_port(rest@, p)
                    == spec_rows_with_port(all, p) by {
                assert(rest_before =~= seq![e] + rest@);
                lemma_rows_of_cons(e, rest@, p);
                lemma_rows_after_insert(out_before, pos as int, e, p);
                assert(out@ == out_before.insert(pos as int, e));
                assert(spec_rows_with_port(out@, p) + spec_rows_with_port(rest@, p)
                    =~= spec_rows_with_port(out_before, p) + spec_rows_with_port(rest_before, p));
            }
        }
    }
    proof {
        assert(out@.to_multiset().add(rest@.to_multiset()) =~= out@.to_multiset());
        assert forall|p: u16| spec_rows_with_port(out@, p) == spec_rows_with_port(all, p) by {
            assert(spec_rows_with_port(out@, p) + spec_rows_with_port(rest@, p)
                =~= spec_rows_with_port(out@, p));
        }
    }
    out
}

/// Lists every listening port with its owner: sockets are deduplicated by
/// (port, PID), owners that exited in between are dropped silently, and
/// the result is sorted non-decreasing by port number.  Fails only when
/// socket enumeration itself fails.
pub fn list_ports(filter: ProtocolFilter) -> (r: PdResult<Vec<PortEntry>>)
    ensures
        r matches Err(e) ==> e matches PortDetectiveError::NetworkError(_),
        r matches Ok(v) ==> spec_sorted_by_port(v@),
        r matches Ok(v) ==> forall|k: int|
            0 <= k < v@.len() ==> crate::net::spec_matches_filter(
                (#[trigger] v@[k]).protocol,
                filter,
            ),
{
    let sockets = match get_listening_sockets(filter) {
        Ok(s) => s,
        Err(e) => {
            return Err(e);
        },
    };
    let targets = dedup_by_port_pid(&sockets);
    let mut outcomes: Vec<PdResult<ProcessInfo>> = Vec::new();
    let mut i: usize = 0;
    while i < targets.len()
        invariant
            i <= targets.len(),
            outcomes@.len() == i,
        decreases targets.len() - i,
    {
        let o = inspect(targets[i].pid, targets[i].protocol);
        outcomes.push(o);
        i = i + 1;
    }
    let ghost outcomes_view = outcomes@;
    let entries = entries_from(&targets, outcomes);
    let ghost entries_view = entries@;
    let sorted = sort_entries_by_port(entries);
    proof {
        lemma_dedup_by_port_pid_sound(sockets@);
        lemma_entries_from_targets(entries_view, targets@, outcomes_view);
        lemma_multiset_membership(sorted@, entries_view);
        assert forall|k: int| 0 <= k < sorted@.len() implies crate::net::spec_matches_filter(
            (#[trigger] sorted@[k]).protocol,
            filter,
        ) by {
            assert(entries_view.contains(sorted@[k]));
            let j = choose|j: int| 0 <= j < entries_view.len() && entries_view[j] == sorted@[k];
            let j2 = choose|j2: int|
                0 <= j2 < targets@.len() && (#[trigger] entries_view[j]).port == targets@[j2].port
                    && entries_view[j].protocol == targets@[j2].protocol && entries_view[j].pid
                    == targets@[j2].pid;
            let j3 = choose|j3: int|
                0 <= j3 < sockets@.len() && #[trigger] spec_dedup_by_port_pid(sockets@)[j2]
                    == sockets@[j3];
            assert(targets@[j2].protocol == sockets@[j3].protocol);
        }
    }
    Ok(sorted)
}

/// What a kill request resolved to: the port is free, or a concrete live
/// target was found.
#[derive(Debug)]
pub enum KillPreparation {
    Free(PortReport),
    Target(ProcessInfo),
}

/// The decision taken on a kill request once a confirmation answer is
/// known.
#[derive(Debug, Clone, Copy, PartialEq, Eq, Structural)]
pub enum KillPlan {
    /// Deliver the given signal to the target.
    Proceed(SignalKind),
    /// The caller declined; nothing is signalled.
    Cancelled,
}

/// The PID and protocol of the socket a kill request targets: the first
/// enumerated socket on the port, if any.
pub fn kill_target(sockets: &Vec<BoundSocket>) -> (t: Option<(u32, Protocol)>)
    ensures
        sockets@.len() == 0 ==> t is None,
        sockets@.len() > 0 ==> t == Some((sockets@[0].pid, sockets@[0].protocol)),
{
    if sockets.len() == 0 {
        None
    } else {
        Some((sockets[0].pid, sockets[0].protocol))
    }
}

/// Turns the resolution outcome of the kill target into the kill
/// preparation: unlike the inspect and list paths, a failed resolution is
/// surfaced, never absorbed — killing needs a concrete live target.
pub fn resolve_kill_target(resolution: PdResult<ProcessInfo>) -> (r: PdResult<KillPreparation>)
    ensures
        resolution matches Ok(info) ==> r == Ok::<_, PortDetectiveError>(
            KillPreparation::Target(info),
        ),
        resolution matches Err(e) ==> r == Err::<KillPreparation, _>(e),
{
    match resolution {
        Ok(info) => Ok(KillPreparation::Target(info)),
        Err(e) => Err(e),
    }
}

/// Resolves a kill request on a port: reports the port free when nothing
/// is bound to it, otherwise resolves the first matching socket's owner
/// for confirmation.  A vanished target surfaces as `ProcessNotFound`.
pub fn prepare_kill(port: u16, filter: ProtocolFilter) -> (r: PdResult<KillPreparation>)
    ensures
        r matches Err(e) ==> (e matches PortDetectiveError::NetworkError(_)
            || e matches PortDetectiveError::ProcessNotFound(_)),
        r matches Ok(k) ==> match k {
            KillPreparation::Free(rep) => rep.port == port && rep.protocol
                == spec_protocol_of_filter(filter) && rep.status is Free && rep.wf(),
            KillPreparation::Target(info) => info.wf(),
        },
{
    let sockets = match find_processes_by_port(port, filter) {
        Ok(s) => s,
        Err(e) => {
            return Err(e);
        },
    };
    match kill_target(&sockets) {
        None => Ok(KillPreparation::Free(PortReport::free(port, protocol_of_filter(filter)))),
        Some((pid, protocol)) => resolve_kill_target(inspect(pid, protocol)),
    }
}

/// The decision for a kill request: proceed with the signal the `force`
/// flag selects when confirmation was skipped or given, cancel otherwise.
pub open spec fn spec_kill_plan(force: bool, no_prompt: bool, approved: bool) -> KillPlan {
    if no_prompt || approved {
        KillPlan::Proceed(spec_signal_for(force))
    } else {
        KillPlan::Cancelled
    }
}

/// Decides a kill request from the confirmation answer: the termination
/// engine is invoked only on a `Proceed` plan, with the graceful signal by
/// default and the forceful signal when `force` is set.
pub fn plan_kill(force: bool, no_prompt: bool, approved: bool) -> (p: KillPlan)
    ensures
        p == spec_kill_plan(force, no_prompt, approved),
{
    if no_prompt || approved {
        KillPlan::Proceed(signal_for(force))
    } else {
        KillPlan::Cancelled
    }
}

/// Declining the confirmation always cancels the request: no signal is
/// ever selected, whatever the `force` flag says.
pub proof fn lemma_decline_cancels(force: bool)
    ensures
        spec_kill_plan(force, false, false) == KillPlan::Cancelled,
{
}

/// The process exit code for a failed operation, one distinct code per
/// outcome class.
pub open spec fn spec_exit_code(e: PortDetectiveError) -> u8 {
    match e {
        PortDetectiveError::PortFree(_) => 0u8,
        PortDetectiveError::PermissionDenied(_) => 2u8,
        PortDetectiveError::ProcessNotFound(_) => 3u8,
        PortDetectiveError::Cancelled => 4u8,
        _ => 1u8,
    }
}

/// Maps an error to the process exit code of its outcome class.
pub fn exit_code_for_error(e: &PortDetectiveError) -> (c: u8)
    ensures
        c == spec_exit_code(*e),
{
    match e {
        PortDetectiveError::PortFree(_) => 0,
        PortDetectiveError::PermissionDenied(_) => 2,
        PortDetectiveError::ProcessNotFound(_) => 3,
        PortDetectiveError::Cancelled => 4,
        _ => 1,
    }
}

/// Maps an inspection report to its exit code: zero for a free port, one
/// for a port in use.
pub fn exit_code_for_report(rep: &PortReport) -> (c: u8)
    ensures
        rep.status is Free ==> c == 0,
        rep.status is InUse ==> c == 1,
{
    match rep.status {
        crate::model::PortStatus::Free => 0,
        crate::model::PortStatus::InUse => 1,
    }
}

} // verus!
