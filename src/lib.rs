//! Ownership ledger: content-hash claims and numbered kitties, each owned by
//! one account, with a per-account sorted index and a price-gated market.

pub mod order;
pub mod sorted;
pub mod index;
pub mod erc20;
pub mod dna;
pub mod kitties;
pub mod claims_store;
pub mod claims;
