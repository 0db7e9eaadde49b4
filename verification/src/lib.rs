//! Replays an ordered log of financial transactions into per-client account
//! balances, with a dispute / resolve / chargeback lifecycle on deposits.
//!
//! Amounts and balances are exact fixed-point quantities: integers that count
//! ten-thousandths of one unit of currency.

pub mod decimal;
pub mod lemmas;
pub mod model;
pub mod record;
pub mod transaction_engine;
