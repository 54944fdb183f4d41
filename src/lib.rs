//! Per-client ledgers built from an ordered stream of deposits, withdrawals,
//! disputes, resolutions and chargebacks.
//!
//! Money is held as whole ten-thousandths of a currency unit: `50000`
//! stands for `5.0000`.
pub mod transaction;
pub mod account;
pub mod laws;
pub mod ledger;
