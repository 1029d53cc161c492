//! A decentralized data-aggregation oracle: registered reporters submit
//! numeric observations into numbered rounds; once enough submissions arrive
//! the round is finalized with the per-slot median, the reporter is paid from
//! the recorded funds, and the round ledger keeps the answer permanently.
//!
//! The host environment (persistent storage, caller identity, block time and
//! the token-transfer primitive) is out of scope: entry points receive the
//! caller and the current time as plain values and record every ledger change
//! in the [`aggregator::Aggregator`] state.

pub mod aggregator;
pub mod data;
pub mod errors;
pub mod kv;
pub mod median;
