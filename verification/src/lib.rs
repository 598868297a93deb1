//! A proof-of-stake ledger shell: the application half of a BFT-replicated
//! state machine. The library validates, orders, decrypts and applies
//! transactions against a versioned key-value store, and enforces a
//! proof-of-stake economy with bonding, unbonding, slashing and epoch
//! transitions. Consensus, disk storage and the sandboxed user-code runtime
//! are external collaborators; everything here is pure state-machine logic.

pub mod address;
pub mod client;
pub mod codec;
pub mod config;
pub mod crypto;
pub mod masp;
pub mod pos;
pub mod pos_storage;
pub mod pos_vp;
pub mod shell;
pub mod token;
pub mod tx;
pub mod wallet;
