//! Failures that a chain adapter reports.

use vstd::prelude::*;
use crate::merkle::Digest;

verus! {

/// The closed set of failures of any chain adapter.
#[derive(Clone, Copy, Debug, PartialEq, Eq)]
pub enum ChainCommunicationError {
    /// The chain could not be reached over its transport.
    ConnectionError,
    /// A call reverted or returned malformed data.
    ContractError,
    /// A transaction was included and then disappeared before it reached
    /// its confirmation depth; carries the transaction hash.
    DroppedError(Digest),
    /// Inclusion or confirmation did not come before the deadline.
    TxTimeout,
    /// Data came back where a typed value was expected and did not parse.
    ParseError,
}

/// Failures that a caller retries: resending, or waiting and trying again.
pub open spec fn retryable(e: ChainCommunicationError) -> bool {
    match e {
        ChainCommunicationError::ConnectionError => true,
        ChainCommunicationError::DroppedError(_) => true,
        ChainCommunicationError::TxTimeout => true,
        ChainCommunicationError::ContractError => false,
        ChainCommunicationError::ParseError => false,
    }
}

impl ChainCommunicationError {
    /// Whether the failure is transient: a dropped transaction is resent, a
    /// timeout or a connection failure retried with backoff. A reverted call
    /// or unparsable data needs investigation first.
    pub fn is_retryable(&self) -> (r: bool)
        ensures
            r == retryable(*self),
    {
        match self {
            ChainCommunicationError::ConnectionError => true,
            ChainCommunicationError::DroppedError(_) => true,
            ChainCommunicationError::TxTimeout => true,
            ChainCommunicationError::ContractError => false,
            ChainCommunicationError::ParseError => false,
        }
    }
}

} // verus!
