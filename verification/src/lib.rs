//! Core of a cross-chain bridge: an inbound channel protocol that admits
//! foreign messages exactly once and in strict nonce order, and a
//! multi-asset ledger that conserves total issuance under deposits,
//! withdrawals and transfers, using only checked arithmetic.

pub mod channel;
pub mod envelope;
pub mod ledger;
pub mod mocks;
pub mod types;
pub mod uint256;
