//! Verified core of the DoubleZero fees tooling: account layouts, account
//! decoding, snapshot listing parsing, command-line parsing and the integer
//! aggregation behind epoch reports and enrichment.

pub mod le_bytes;
pub mod bindings;
pub mod dz;
pub mod zero_copy;
pub mod onchain;
pub mod dumps;
pub mod text;
pub mod snapshot;
pub mod report;
pub mod cli;
pub mod enrich;
