//! A peer-to-peer blockchain node library: gossip-based membership with
//! bounded neighbor rebalancing, a proof-of-work block engine with merkle-root
//! aggregation, and a UTXO wallet ledger with signature creation and
//! verification.
pub mod block;
pub mod bootstrap;
pub mod chain;
pub mod crypto;
pub mod cvec;
pub mod membership;
pub mod merkle;
pub mod encoding;
pub mod events;
pub mod mine;
pub mod net;
pub mod peer;
pub mod pow;
pub mod tx;
pub mod wallet;
