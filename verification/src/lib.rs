//! Answers "what process owns this network port, and can I safely stop it?"
//!
//! The library enumerates bound sockets, correlates them with the owning
//! processes, builds port reports and listings, and plans supervised
//! process termination.  All logic is verified; the operating-system
//! queries themselves sit behind a small set of trusted wrappers.

pub mod cli;
pub mod engine;
pub mod error;
pub mod model;
pub mod net;
pub mod proc;
pub mod text;
