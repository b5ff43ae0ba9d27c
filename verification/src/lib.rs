//! Battle-log search: scans battle records (one JSON document per match) for
//! every match involving a given player, optionally narrowed to wins only or
//! forfeits only, and reports a one-line summary per match found.
//!
//! The crate holds the verified core: the identity normalizer, the match
//! evaluator, the round-robin worker pool model with its shutdown protocol,
//! and the per-worker state machine. Directory traversal, channels and
//! threads live in the surrounding program.

pub mod ids;
pub mod pool;
pub mod search;
