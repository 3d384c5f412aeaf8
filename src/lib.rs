//! Core of a cross-chain message-passing agent: an incremental Merkle
//! accumulator with membership proofs, a continuity check for observed
//! leaves, the chain-communication error taxonomy, the transaction dispatch
//! state machine, and the agent core that binds one home to its replicas.

pub mod merkle;
pub mod validity;
pub mod error;
pub mod dispatch;
pub mod settings;
