//! A proof-of-work miner whose search runs on a fixed pool of workers.
pub mod block;
pub mod mining;
pub mod queue;
pub mod text;
