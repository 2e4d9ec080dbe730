//! Shared data model: identities, asset classes, channel identifiers, and the
//! validated foreign message (envelope) that a channel admits.

use vstd::prelude::*;

verus! {

/// A 160-bit foreign-chain address: the top 32 bits in `hi`, the low 128 in `lo`.
#[derive(Clone, Copy, PartialEq, Eq, Structural, Debug)]
pub struct Address {
    pub hi: u32,
    pub lo: u128,
}

/// A 256-bit local account identifier, as two 128-bit halves.
#[derive(Clone, Copy, PartialEq, Eq, Structural, Debug)]
pub struct AccountId {
    pub hi: u128,
    pub lo: u128,
}

/// The two inbound channel variants. The identifier selects both the storage
/// partition (one nonce per variant) and the fee behaviour.
#[derive(Clone, Copy, PartialEq, Eq, Structural, Debug)]
pub enum ChannelId {
    Basic,
    Incentivized,
}

/// An asset class with its own independent balance and issuance space.
#[derive(Clone, Copy, PartialEq, Eq, Structural, Debug)]
pub enum AssetId {
    Eth,
    Token(Address),
}

/// A validated, decoded foreign message, produced only by a verifier.
/// `nonce` is relayer-controlled; the channel alone enforces its ordering.
#[derive(PartialEq, Eq, Debug)]
pub struct Envelope {
    pub source: Address,
    pub nonce: u64,
    pub payload: Vec<u8>,
    pub metadata: Vec<u8>,
}

/// The unique correlation key handed to dispatch for an admitted message.
#[derive(Clone, Copy, PartialEq, Eq, Structural, Debug)]
pub struct MessageId {
    pub channel_id: ChannelId,
    pub nonce: u64,
}

/// The only channel-protocol error: the submitted nonce is not the one the
/// channel expects. Recoverable; the failed submission mutates nothing.
#[derive(Clone, Copy, PartialEq, Eq, Structural, Debug)]
pub enum ChannelError {
    BadNonce,
}

/// Arithmetic errors of the asset ledger. Each fails its whole operation
/// atomically; no partial mutation is ever retained.
#[derive(Clone, Copy, PartialEq, Eq, Structural, Debug)]
pub enum LedgerError {
    BalanceOverflow,
    TotalIssuanceOverflow,
    TotalIssuanceUnderflow,
    InsufficientBalance,
}

} // verus!
