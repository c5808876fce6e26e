//! The data model: protocols, process records, port reports and listing rows.

use vstd::prelude::*;
use crate::text::{spec_join, join_spaces};

verus! {

/// The transport protocol a socket was discovered under, or `Both` when a
/// query did not restrict the protocol.
#[derive(Debug, Clone, Copy, PartialEq, Eq, Structural)]
pub enum Protocol {
    Tcp,
    Udp,
    Both,
}

impl Protocol {
    /// The textual label of the protocol.
    pub fn label(&self) -> (s: &'static str)
        ensures
            *self is Tcp ==> s@ == "tcp"@,
            *self is Udp ==> s@ == "udp"@,
            *self is Both ==> s@ == "tcp/udp"@,
    {
        match self {
            Protocol::Tcp => "tcp",
            Protocol::Udp => "udp",
            Protocol::Both => "tcp/udp",
        }
    }
}

/// Whether a port has any surviving owner process.
#[derive(Debug, Clone, Copy, PartialEq, Eq, Structural)]
pub enum PortStatus {
    Free,
    InUse,
}

/// Enriched identity of a process bound to a socket: a point-in-time
/// snapshot, never refreshed in place.
#[derive(Debug)]
pub struct ProcessInfo {
    pub pid: u32,
    pub name: String,
    pub user: String,
    pub command: Vec<String>,
    pub cwd: Option<String>,
    pub parent_pid: Option<u32>,
    pub parent_name: Option<String>,
    /// Absolute start timestamp in seconds; absent when the OS reported zero.
    pub started: Option<u64>,
    pub protocol: Protocol,
}

impl ProcessInfo {
    /// Structural invariants: a parent name is only ever reported alongside a
    /// parent PID, and a start time of zero is never stored.
    pub open spec fn wf(&self) -> bool {
        &&& (self.parent_name is Some ==> self.parent_pid is Some)
        &&& (self.started matches Some(t) ==> t != 0)
    }
}

/// The result of inspecting one port.
#[derive(Debug)]
pub struct PortReport {
    pub port: u16,
    pub protocol: Protocol,
    pub status: PortStatus,
    pub processes: Vec<ProcessInfo>,
}

impl PortReport {
    /// The report invariant: a port is `Free` exactly when no process
    /// record survived resolution.
    pub open spec fn wf(&self) -> bool {
        (self.status is Free) <==> self.processes@.len() == 0
    }

    /// A report for a port with no surviving owner.
    pub fn free(port: u16, protocol: Protocol) -> (r: Self)
        ensures
            r.port == port,
            r.protocol == protocol,
            r.status is Free,
            r.processes@.len() == 0,
            r.wf(),
    {
        PortReport { port, protocol, status: PortStatus::Free, processes: Vec::new() }
    }

    /// A report for a port owned by the given processes.
    pub fn in_use(port: u16, protocol: Protocol, processes: Vec<ProcessInfo>) -> (r: Self)
        requires
            processes@.len() > 0,
        ensures
            r.port == port,
            r.protocol == protocol,
            r.status is InUse,
            r.processes == processes,
            r.wf(),
    {
        PortReport { port, protocol, status: PortStatus::InUse, processes }
    }
}

/// One row of a full port listing.
#[derive(Debug)]
pub struct PortEntry {
    pub port: u16,
    pub protocol: Protocol,
    pub pid: u32,
    pub name: String,
    pub user: String,
    pub command: String,
}

impl Clone for PortEntry {
    fn clone(&self) -> (r: Self)
        ensures
            r == *self,
    {
        PortEntry {
            port: self.port,
            protocol: self.protocol,
            pid: self.pid,
            name: self.name.clone(),
            user: self.user.clone(),
            command: self.command.clone(),
        }
    }
}

/// The displayed command of a process: the space-joined argument list, or
/// the process name when the argument list is empty.
pub open spec fn spec_flatten_command(name: Seq<char>, command: Seq<Seq<char>>) -> Seq<char> {
    if command.len() == 0 {
        name
    } else {
        spec_join(command)
    }
}

/// Flattens a command-line argument list for display.
pub fn flatten_command(name: &String, command: &Vec<String>) -> (s: String)
    ensures
        s@ == spec_flatten_command(name@, command.deep_view()),
{
    if command.len() == 0 {
        proof {
            assert(command.deep_view().len() == command@.len());
        }
        name.clone()
    } else {
        proof {
            assert(command.deep_view().len() == command@.len());
        }
        join_spaces(command)
    }
}

} // verus!
