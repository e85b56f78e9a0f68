//! A process supervisor core: validated service records, a dependency
//! graph with cycle detection and topological ordering, a per-service
//! supervision state machine, and startup/shutdown coordinators.

pub mod arguments;
pub mod graph;
pub mod orchestrator;
pub mod service;
pub mod supervisor;
pub mod version;

use vstd::prelude::*;

verus! {

/// A log level, ordered from completely silent to most verbose.
#[derive(Clone, Copy, Debug, PartialEq, Eq, Structural)]
pub enum LevelFilter {
    Off,
    Error,
    Warn,
    Info,
    Debug,
    Trace,
}

} // verus!
