//! Building blocks for comparing synchronization disciplines: a bounded job
//! queue with a worker pool and graceful shutdown, the measurement harness
//! shared by every scenario, and the deterministic workloads and analytic
//! oracles that the scenarios check themselves against.

pub mod accounts;
pub mod aggregate;
pub mod barrier;
pub mod blocks;
pub mod checks;
pub mod counter;
pub mod counting;
pub mod harness;
pub mod input;
pub mod pipeline;
pub mod pool;
pub mod prng;
pub mod producer;
pub mod protocol;
pub mod protocol_laws;
pub mod queue;
pub mod sampling;
pub mod vector_sum;
