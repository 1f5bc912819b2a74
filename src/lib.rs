//! A fixed-size worker pool: the job queue, the worker loop's decisions and
//! the pool's drain-then-join shutdown, as verified state machines.
//!
//! The executable parts that own threads and locks stand outside this
//! library; they drive the machines here and perform the actions that the
//! machines hand back. Beside the pool stands the one decision of the
//! connection handler that the pool runs: which answer a request gets.
pub mod message;
pub mod worker;
pub mod pool;
pub mod http;
