//! A fixed-size worker pool, modelled as a verified state machine.
//!
//! A pool owns a queue of pending jobs and a fixed collection of workers.
//! Jobs are identified by plain integers; running a job means recording its
//! identifier in the pool's completion log. The exec functions are the
//! transitions of the pool (construction, submission, the worker loop, and
//! the shutdown protocol); the laws module states and proves the global
//! guarantees, such as that no submitted job is ever lost or run twice.

pub mod laws;
pub mod pool;
