//! Process resolution and termination: a fresh process-table lookup per
//! PID, best-effort enrichment, and classified signal delivery.
//!
//! The process-table probes and the signal call are trusted (sysinfo, nix,
//! procfs); every decision over what they hand back is verified.

use vstd::prelude::*;
use crate::error::{PdResult, PortDetectiveError};
use crate::model::{ProcessInfo, Protocol};
use crate::text::dec_digits;

verus! {

/// A process-table row, reduced to plain values.
#[derive(Debug)]
pub struct RawProcess {
    pub name: String,
    /// The numeric user id of the owner, when the table reports one.
    pub uid: Option<u32>,
    pub command: Vec<String>,
    pub cwd: Option<String>,
    pub parent_pid: Option<u32>,
    /// Start timestamp in seconds; the kernel reports zero when unknown.
    pub start_time: u64,
}

/// Relies on sysinfo::System: refreshes exactly the queried PID and reads
/// its name, user id, command line, working directory, parent and start
/// time.  Returns nothing when the PID is absent from the process table.
/// One wrapper holds the whole probe because the process row borrows the
/// refreshed table.
#[verifier::external_body]
fn probe_process(pid: u32) -> (r: Option<RawProcess>) {
    let mut sys = sysinfo::System::new();
    let targets = [sysinfo::Pid::from_u32(pid)];
    let what = sysinfo::ProcessRefreshKind::everything();
    sys.refresh_processes_specifics(sysinfo::ProcessesToUpdate::Some(&targets), true, what);
    let p = sys.process(sysinfo::Pid::from_u32(pid))?;
    Some(RawProcess {
        name: p.name().to_string_lossy().to_string(),
        uid: p.user_id().map(|u| **u),
        command: p.cmd().iter().map(|c| c.to_string_lossy().to_string()).collect(),
        cwd: p.cwd().map(|c| c.to_string_lossy().to_string()),
        parent_pid: p.parent().map(|pp| pp.as_u32()),
        start_time: p.start_time(),
    })
}

/// Relies on sysinfo::Users::get_user_by_id: resolves a numeric user id
/// against the system's user directory, best effort.
#[verifier::external_body]
fn user_name_for_uid(uid: u32) -> (r: Option<String>) {
    let users = sysinfo::Users::new_with_refreshed_list();
    let id = sysinfo::Uid::try_from(uid as usize).ok()?;
    users.get_user_by_id(&id).map(|u| u.name().to_string())
}

/// Relies on procfs::process::Process::cwd: reads the working directory of
/// a process from the proc filesystem, best effort.
#[verifier::external_body]
pub fn get_cwd_linux(pid: u32) -> (r: Option<String>) {
    let p = procfs::process::Process::new(pid as i32).ok()?;
    p.cwd().ok().map(|c| c.to_string_lossy().to_string())
}

/// A start-time reading of zero means the kernel did not report a valid
/// wall-clock origin, and resolves to an absent start time.
pub open spec fn spec_start_time(t: u64) -> Option<u64> {
    if t == 0 {
        None
    } else {
        Some(t)
    }
}

/// Resolves a raw start-time reading; zero yields an absent value.
pub fn process_start_time(start_time: u64) -> (r: Option<u64>)
    ensures
        r == spec_start_time(start_time),
{
    if start_time == 0 {
        None
    } else {
        Some(start_time)
    }
}

/// How a process record is assembled from a probed process-table row: the
/// user name falls back to "unknown", a parent name is kept only alongside
/// a parent PID, and a zero start time becomes absent.
pub open spec fn spec_assembled(
    rec: ProcessInfo,
    pid: u32,
    protocol: Protocol,
    raw: RawProcess,
    user: Option<String>,
    parent_name: Option<String>,
) -> bool {
    &&& rec.pid == pid
    &&& rec.protocol == protocol
    &&& rec.name == raw.name
    &&& (user matches Some(u) ==> rec.user == u)
    &&& (user is None ==> rec.user@ == "unknown"@)
    &&& rec.command == raw.command
    &&& rec.cwd == raw.cwd
    &&& rec.parent_pid == raw.parent_pid
    &&& (raw.parent_pid is Some ==> rec.parent_name == parent_name)
    &&& (raw.parent_pid is None ==> rec.parent_name is None)
    &&& rec.started == spec_start_time(raw.start_time)
}

/// Assembles the enriched process record from a probed row and the
/// best-effort user and parent lookups.
pub fn assemble_record(
    pid: u32,
    protocol: Protocol,
    raw: RawProcess,
    user: Option<String>,
    parent_name: Option<String>,
) -> (rec: ProcessInfo)
    ensures
        spec_assembled(rec, pid, protocol, raw, user, parent_name),
        rec.wf(),
{
    let user_name = match user {
        Some(u) => u,
        None => String::from_str("unknown"),
    };
    let (ppid, pname) = match raw.parent_pid {
        Some(pp) => (Some(pp), parent_name),
        None => (None, None),
    };
    ProcessInfo {
        pid,
        name: raw.name,
        user: user_name,
        command: raw.command,
        cwd: raw.cwd,
        parent_pid: ppid,
        parent_name: pname,
        started: process_start_time(raw.start_time),
        protocol,
    }
}

/// Turns a probe outcome into a resolution outcome: an absent row fails
/// with `ProcessNotFound`, a present row always yields a record.
pub fn record_outcome(
    pid: u32,
    protocol: Protocol,
    probe: Option<RawProcess>,
    user: Option<String>,
    parent_name: Option<String>,
) -> (r: PdResult<ProcessInfo>)
    ensures
        probe is None <==> r == Err::<ProcessInfo, _>(PortDetectiveError::ProcessNotFound(pid)),
        probe matches Some(raw) ==> (r matches Ok(rec) && spec_assembled(
            rec,
            pid,
            protocol,
            raw,
            user,
            parent_name,
        ) && rec.wf()),
{
    match probe {
        None => Err(PortDetectiveError::ProcessNotFound(pid)),
        Some(raw) => Ok(assemble_record(pid, protocol, raw, user, parent_name)),
    }
}

/// Resolves a PID against a fresh process-table lookup.  Fails with
/// `ProcessNotFound` exactly when the PID is absent from the table; the
/// parent and user lookups are best effort and never fail the resolution.
pub fn inspect(pid: u32, protocol: Protocol) -> (r: PdResult<ProcessInfo>)
    ensures
        r matches Err(e) ==> e == PortDetectiveError::ProcessNotFound(pid),
        r matches Ok(rec) ==> rec.pid == pid && rec.protocol == protocol && rec.wf(),
{
    let probe = probe_process(pid);
    match probe {
        None => record_outcome(pid, protocol, None, None, None),
        Some(raw) => {
            let user = match raw.uid {
                Some(u) => user_name_for_uid(u),
                None => None,
            };
            let parent_name = match raw.parent_pid {
                Some(pp) => match probe_process(pp) {
                    Some(parent) => Some(parent.name),
                    None => None,
                },
                None => None,
            };
            record_outcome(pid, protocol, Some(raw), user, parent_name)
        },
    }
}

/// The termination signal a kill request asks for.
#[derive(Debug, Clone, Copy, PartialEq, Eq, Structural)]
pub enum SignalKind {
    /// The graceful signal, equivalent to SIGTERM.
    Term,
    /// The forceful signal, equivalent to SIGKILL.
    Kill,
}

/// The signal selected by the `force` flag: forceful when set, graceful
/// otherwise.
pub open spec fn spec_signal_for(force: bool) -> SignalKind {
    if force {
        SignalKind::Kill
    } else {
        SignalKind::Term
    }
}

/// Returns the signal a kill request with the given `force` flag asks for.
pub fn signal_for(force: bool) -> (s: SignalKind)
    ensures
        s == spec_signal_for(force),
{
    if force {
        SignalKind::Kill
    } else {
        SignalKind::Term
    }
}

/// Why signal delivery failed: the OS denied it, or anything else.
#[derive(Debug, PartialEq, Eq)]
pub enum SignalFailure {
    /// The OS denied the signal for lack of privilege.
    Denied,
    /// Any other delivery failure, with the raw OS description.
    Other(String),
}

/// Relies on nix::sys::signal::kill: requests delivery of the selected
/// signal to the PID, telling a privilege refusal (EPERM) apart from every
/// other error.
#[verifier::external_body]
fn send_signal(pid: u32, sig: SignalKind) -> (r: Result<(), SignalFailure>) {
    let s = match sig {
        SignalKind::Term => nix::sys::signal::Signal::SIGTERM,
        SignalKind::Kill => nix::sys::signal::Signal::SIGKILL,
    };
    match nix::sys::signal::kill(nix::unistd::Pid::from_raw(pid as i32), s) {
        Ok(()) => Ok(()),
        Err(e) => Err(
            if e == nix::errno::Errno::EPERM {
                SignalFailure::Denied
            } else {
                SignalFailure::Other(e.to_string())
            },
        ),
    }
}

/// The remediation hint reported when the OS denies a kill.
pub open spec fn spec_denied_hint(pid: u32) -> Seq<char> {
    "Cannot kill PID "@ + dec_digits(pid as nat) + ". Try running with elevated permissions."@
}

/// Classifies a signal-delivery failure into the error taxonomy: a denial
/// becomes `PermissionDenied` with a remediation hint, anything else
/// becomes `KillFailed` with the raw cause.
pub fn classify_signal_failure(pid: u32, f: SignalFailure) -> (e: PortDetectiveError)
    ensures
        f is Denied ==> (e matches PortDetectiveError::PermissionDenied(m) && m@
            == spec_denied_hint(pid)),
        f matches SignalFailure::Other(reason) ==> e == (PortDetectiveError::KillFailed {
            pid,
            reason,
        }),
{
    match f {
        SignalFailure::Denied => {
            let m = String::from_str("Cannot kill PID ").concat(
                crate::text::u32_string(pid).as_str(),
            );
            PortDetectiveError::PermissionDenied(
                m.concat(". Try running with elevated permissions."),
            )
        },
        SignalFailure::Other(reason) => PortDetectiveError::KillFailed { pid, reason },
    }
}

/// Requests termination of a process: the graceful signal by default, the
/// forceful signal when `force` is set.  On success the requested signal is
/// reported back; a denial surfaces as `PermissionDenied`, any other
/// delivery failure as `KillFailed` for this PID.  Delivery is requested
/// once; process exit is neither awaited nor verified.
pub fn kill_process(pid: u32, force: bool) -> (r: PdResult<SignalKind>)
    ensures
        r matches Ok(s) ==> s == spec_signal_for(force),
        r matches Err(e) ==> (e matches PortDetectiveError::PermissionDenied(_) || (
        e matches PortDetectiveError::KillFailed { pid: p, .. } && p == pid)),
        r matches Err(e) ==> (e matches PortDetectiveError::PermissionDenied(m) ==> m@
            == spec_denied_hint(pid)),
{
    let sig = signal_for(force);
    match send_signal(pid, sig) {
        Ok(()) => Ok(sig),
        Err(f) => Err(classify_signal_failure(pid, f)),
    }
}

} // verus!
