//! Verified core of a service-manager control backend.
//!
//! The crate models service units and their lifecycle states, parses the
//! manager's tabular unit listing and `Key=Value` property dumps, builds the
//! exact command lines that drive the manager, classifies command outcomes,
//! and tracks the lifecycle of remote shell sessions.  Everything here is
//! pure computation over plain values; the process and transport boundaries
//! live outside this crate and hand it captured text and exit flags.

pub mod command;
pub mod control;
pub mod parse;
pub mod remote_host;
pub mod session;
pub mod status;
pub mod text;
pub mod unit;
