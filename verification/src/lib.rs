//! Verified core of the StellarFlow contracts: the liquidity pool's deposit
//! rules and the governance rules for quorum, key rotation, fees and ballots.
pub mod address;
pub mod amm;
pub mod governance;
pub mod ballot;
