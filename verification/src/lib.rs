//! A pooled-fund distribution engine.
//!
//! Participants deposit value from a token ledger into a shared pool; an
//! administrator marks which participants are eligible, then triggers either
//! a proportional payout to the eligible participants or a full refund of the
//! original deposits.
//!
//! The ledger itself is an external collaborator; [`ledger`] holds a model of
//! its boundary (balance query and transfer) against which the engine in
//! [`contract`] is verified.

pub mod contract;
pub mod errors;
pub mod ledger;
pub mod registry;
