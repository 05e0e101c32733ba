//! A market-data and execution gateway core: a sequence-checked level-2
//! order book, idempotent order intake, latency percentiles, and the
//! decisions of the pipeline that connects them.
pub mod book_side;
pub mod clock;
pub mod execution;
pub mod latency;
pub mod orderbook;
pub mod pipeline;
