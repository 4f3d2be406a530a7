//! A small proof-of-work cryptocurrency node library: transactions with
//! pay-to-public-key-hash scripts, an unspent-output ledger, a fee-ordered
//! mempool, blocks with Merkle roots, and the peer-to-peer protocol state
//! machine, all with verified contracts.

pub mod api;
pub mod block;
pub mod codec;
pub mod command_handling;
pub mod commands;
pub mod hash;
pub mod keys;
pub mod mempool;
pub mod connection;
pub mod node;
pub mod nonce;
pub mod numbers;
pub mod peers;
pub mod protocol_handling;
pub mod protocol;
pub mod script;
pub mod timestamp;
pub mod transaction;
pub mod utxos;
pub mod wallet;

pub use hash::sha256;
