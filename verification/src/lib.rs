//! A single-asset-class NFT ledger: token ownership, delegated operators,
//! and an append-only transaction history, with the authorization rules
//! that gate every mutation.

pub mod app;
pub mod configuration;
pub mod inspect;
pub mod laws;
pub mod token_id;
pub mod tokens;
pub mod trusted;
pub mod tx_history;
pub mod types;
