//! Forward error correction: groups of packets, and repair symbols that stand in for lost ones.

pub mod arbiter;
pub mod cauchy;
pub mod codec;
pub mod gf;
pub mod linalg;
pub mod self_test;

pub use arbiter::{ArbiterMode, FecArbiter};
pub use codec::{FecDecoder, FecEncoder, FecRepairData, FEC_REPAIR_HDR, FEC_SOURCE_HDR};
