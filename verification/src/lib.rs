//! Input reshaping, field-element text handling and sweep control for
//! benchmarking an incrementally folded proof over a multi-step trace.

pub mod decimal;
pub mod field;
pub mod report;
pub mod shard;
pub mod sweep;
pub mod transcript;
pub mod utils;
