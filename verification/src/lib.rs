//! A time-weighted reward accrual and distribution ledger for a token-staking
//! protocol.
//!
//! Users lock principal for a chosen duration to earn yield, provide liquidity
//! to earn a share of pooled rewards, and a protocol-owned liquidity sub-ledger
//! accumulates and redistributes voting-derived yield.  All state lives in
//! explicit ledger values passed by reference; storage, authentication and
//! token custody belong to the host environment around this crate.

pub mod arith;
pub mod governance;
pub mod liquidity;
pub mod registry;
pub mod rewards;
pub mod staking;
pub mod table;

pub use arith::validate_positive_amount;
