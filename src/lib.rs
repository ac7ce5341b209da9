//! A collateralized-lending ledger: a pooled deposit market with share
//! accounting, loans drawn against locked collateral, loan-to-value risk
//! classification, a utilization-driven interest curve and liquidation
//! settlement. Every operation is a verified state transition of
//! [`engine::Module`].

pub mod types;
pub mod assets;
pub mod interest;
pub mod loans;
pub mod engine;
pub mod pool;
pub mod lending;
pub mod risk;
pub mod accrual;
pub mod laws;
pub mod inspect;
pub mod genesis;
