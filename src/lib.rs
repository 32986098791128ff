//! Scheduling core of a systematic concurrency tester: simulated threads
//! with vector clocks, a branch ledger that enumerates interleavings with
//! dynamic partial order reduction, and the orchestrator of one run.
pub mod vv;
pub mod thread;
pub mod thread_set;
pub mod object;
pub mod path;
pub mod execution;
