//! Canopy builds temporary integration branches: starting from a base commit it
//! merges a list of tips one after another, skips the tips whose merge conflicts,
//! and points a target branch at the result.
//!
//! The repository itself is reached by the caller; this library holds every
//! decision that the workflow makes, each with a contract.
pub mod object;
pub mod ancestry;
pub mod dedup;
pub mod report;
pub mod session;
pub mod cli;
pub mod runs;
