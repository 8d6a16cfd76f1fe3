//! A verified transaction-ledger library.
//!
//! The library ingests comma-separated ledger lines, validates and enriches
//! each record with derived geographic and duration fields, partitions lines
//! into accepted records and rejected lines, and aggregates invested amounts
//! by continent.
//!
//! Amounts are fixed-point integers scaled by [`amount::AMOUNT_SCALE`];
//! calendar dates are resolved by chrono and carried as plain values.

pub mod amount;
pub mod date;
pub mod digits;
pub mod loader;
pub mod location;
pub mod report;
pub mod split;
pub mod transaction;
