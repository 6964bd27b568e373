//! The run-time choices a caller makes when starting a simulation.
//!
//! Argument parsing itself lives outside the library; these enums are
//! the parsed choices the library and its drivers consume.

use vstd::prelude::*;

verus! {

/// How much the simulator logs.
#[derive(Copy, Clone, Debug, PartialEq, Eq, Structural, PartialOrd, Ord)]
pub enum LoggingLevel {
    /// Debug logging.
    Debug,
    /// Info logging.
    Info,
    /// Warning logging.
    Warn,
    /// Error logging.
    Error,
}

/// Whether vehicles are processed one at a time or concurrently.
#[derive(Copy, Clone, Debug, PartialEq, Eq, Structural, PartialOrd, Ord)]
pub enum Parallelism {
    /// Run in a single thread.
    SingleThreaded,
    /// Run in multiple threads on a single node.
    MultiThreaded,
}

/// Which runtime carries the concurrent vehicle drivers.
#[derive(Copy, Clone, Debug, PartialEq, Eq, Structural, PartialOrd, Ord)]
pub enum ThreadRuntime {
    /// Run on a cooperative-task runtime.
    Tokio,
    /// Run on operating-system threads.
    RustThreads,
}

} // verus!
