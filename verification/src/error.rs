//! The error taxonomy of the port inspection and termination engine.

use vstd::prelude::*;
use crate::text::{dec_digits, u16_string, u32_string};

verus! {

/// Everything that can go wrong while inspecting a port or terminating the
/// process that owns it.
#[derive(Debug, PartialEq, Eq)]
pub enum PortDetectiveError {
    /// The queried port number is outside the usable range.
    InvalidPort(u16),
    /// The kernel socket-table enumeration itself failed.
    NetworkError(String),
    /// The PID was gone from the process table at resolution time.
    ProcessNotFound(u32),
    /// The OS denied delivery of the termination signal.
    PermissionDenied(String),
    /// Signal delivery failed for any other reason.
    KillFailed { pid: u32, reason: String },
    /// No process is bound to the queried port.
    PortFree(u16),
    /// The caller declined the kill confirmation.
    Cancelled,
}

/// The result type used throughout the library.
pub type PdResult<T> = core::result::Result<T, PortDetectiveError>;

impl PortDetectiveError {
    /// The human-readable description of the error.
    pub open spec fn spec_message(&self) -> Seq<char> {
        match self {
            PortDetectiveError::InvalidPort(p) => "Port "@ + dec_digits(*p as nat)
                + " is not valid (must be 1-65535)"@,
            PortDetectiveError::NetworkError(s) => "Could not enumerate network sockets: "@ + s@,
            PortDetectiveError::ProcessNotFound(pid) => "Process "@ + dec_digits(*pid as nat)
                + " not found or no longer running"@,
            PortDetectiveError::PermissionDenied(s) => "Permission denied: "@ + s@,
            PortDetectiveError::KillFailed { pid, reason } => "Kill failed for PID "@ + dec_digits(
                *pid as nat,
            ) + ": "@ + reason@,
            PortDetectiveError::PortFree(p) => "No process found on port "@ + dec_digits(
                *p as nat,
            ),
            PortDetectiveError::Cancelled => "Operation cancelled by user"@,
        }
    }

    /// Renders the error for display.
    pub fn message(&self) -> (s: String)
        ensures
            s@ == self.spec_message(),
    {
        match self {
            PortDetectiveError::InvalidPort(p) => {
                let s = String::from_str("Port ").concat(u16_string(*p).as_str());
                s.concat(" is not valid (must be 1-65535)")
            },
            PortDetectiveError::NetworkError(m) => {
                String::from_str("Could not enumerate network sockets: ").concat(m.as_str())
            },
            PortDetectiveError::ProcessNotFound(pid) => {
                let s = String::from_str("Process ").concat(u32_string(*pid).as_str());
                s.concat(" not found or no longer running")
            },
            PortDetectiveError::PermissionDenied(m) => {
                String::from_str("Permission denied: ").concat(m.as_str())
            },
            PortDetectiveError::KillFailed { pid, reason } => {
                let s = String::from_str("Kill failed for PID ").concat(u32_string(*pid).as_str());
                s.concat(": ").concat(reason.as_str())
            },
            PortDetectiveError::PortFree(p) => {
                String::from_str("No process found on port ").concat(u16_string(*p).as_str())
            },
            PortDetectiveError::Cancelled => String::from_str("Operation cancelled by user"),
        }
    }
}

} // verus!
