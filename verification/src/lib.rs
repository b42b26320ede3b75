//! A bounded-concurrency batch harvester: work enumeration, batch slicing,
//! outcome classification, keyed aggregation, asset discovery, and an
//! idempotent download plan, each with a verified contract.

pub mod aggregate;
pub mod batch;
pub mod dataset;
pub mod date;
pub mod discover;
pub mod download;
pub mod inference;
pub mod outcome;
pub mod text;
