//! The life of one submitted transaction: built, sent, included, confirmed,
//! or failed on the way.

use vstd::prelude::*;
use vstd::string::StringExecFns;
use crate::error::ChainCommunicationError;
use crate::merkle::Digest;

verus! {

/// What the chain reports once a transaction is confirmed.
#[derive(Clone, Copy, Debug, PartialEq, Eq)]
pub struct Receipt {
    pub transaction_hash: Digest,
    pub block_number: u64,
}

/// Where a transaction stands.
#[derive(Clone, Copy, Debug, PartialEq, Eq)]
pub enum TxStage {
    /// Built, not yet handed to the transport.
    Built,
    /// Accepted by the transport, not yet mined.
    Sent,
    /// Mined under this hash, not yet confirmed.
    Included(Digest),
    /// Confirmed at the required depth.
    Confirmed(Receipt),
    /// Given up, for this reason.
    Failed(ChainCommunicationError),
}

/// What the adapter observed while the transaction was in flight.
#[derive(Clone, Copy, Debug, PartialEq, Eq)]
pub enum TxEvent {
    /// The transport took the transaction.
    SendAccepted,
    /// The transport refused the transaction.
    SendRejected,
    /// The chain reports the transaction mined under this hash.
    InclusionReported(Digest),
    /// No inclusion before the deadline.
    InclusionTimedOut,
    /// The confirmation depth was reached with this receipt.
    ConfirmationReported(Receipt),
    /// At the confirmation depth the transaction can no longer be found.
    ConfirmationMissing,
    /// No confirmation before the deadline.
    ConfirmationTimedOut,
}

/// What the adapter has to do next for a transaction.
#[derive(Clone, Copy, Debug, PartialEq, Eq)]
pub enum TxAction {
    /// Hand the transaction to the transport.
    Send,
    /// Wait until the chain reports it mined.
    AwaitInclusion,
    /// Wait for the confirmation depth of the transaction with this hash.
    AwaitConfirmation(Digest),
    /// Done: report the receipt.
    Complete(Receipt),
    /// Done: report the failure.
    Abort(ChainCommunicationError),
}

/// The stage after `event` in `stage`. An event that does not belong to the
/// stage leaves it as it is; so do all events once the transaction is
/// confirmed or failed.
pub open spec fn stage_after(stage: TxStage, event: TxEvent) -> TxStage {
    match (stage, event) {
        (TxStage::Built, TxEvent::SendAccepted) => TxStage::Sent,
        (TxStage::Built, TxEvent::SendRejected) => TxStage::Failed(ChainCommunicationError::ConnectionError),
        (TxStage::Sent, TxEvent::InclusionReported(h)) => TxStage::Included(h),
        (TxStage::Sent, TxEvent::InclusionTimedOut) => TxStage::Failed(ChainCommunicationError::TxTimeout),
        (TxStage::Included(_), TxEvent::ConfirmationReported(rc)) => TxStage::Confirmed(rc),
        (TxStage::Included(h), TxEvent::ConfirmationMissing) => TxStage::Failed(
            ChainCommunicationError::DroppedError(h),
        ),
        (TxStage::Included(_), TxEvent::ConfirmationTimedOut) => TxStage::Failed(ChainCommunicationError::TxTimeout),
        _ => stage,
    }
}

/// The stage reached from `stage` after each of `events` in turn.
pub open spec fn stage_after_all(stage: TxStage, events: Seq<TxEvent>) -> TxStage
    decreases events.len(),
{
    if events.len() == 0 {
        stage
    } else {
        stage_after_all(stage_after(stage, events[0]), events.drop_first())
    }
}

/// The action that `stage` calls for.
pub open spec fn action_of(stage: TxStage) -> TxAction {
    match stage {
        TxStage::Built => TxAction::Send,
        TxStage::Sent => TxAction::AwaitInclusion,
        TxStage::Included(h) => TxAction::AwaitConfirmation(h),
        TxStage::Confirmed(rc) => TxAction::Complete(rc),
        TxStage::Failed(e) => TxAction::Abort(e),
    }
}

impl TxStage {
    /// The stage after `event`.
    pub fn advance(self, event: TxEvent) -> (r: TxStage)
        ensures
            r == stage_after(self, event),
    {
        match (self, event) {
            (TxStage::Built, TxEvent::SendAccepted) => TxStage::Sent,
            (TxStage::Built, TxEvent::SendRejected) => TxStage::Failed(ChainCommunicationError::ConnectionError),
            (TxStage::Sent, TxEvent::InclusionReported(h)) => TxStage::Included(h),
            (TxStage::Sent, TxEvent::InclusionTimedOut) => TxStage::Failed(ChainCommunicationError::TxTimeout),
            (TxStage::Included(_), TxEvent::ConfirmationReported(rc)) => TxStage::Confirmed(rc),
            (TxStage::Included(h), TxEvent::ConfirmationMissing) => TxStage::Failed(
                ChainCommunicationError::DroppedError(h),
            ),
            (TxStage::Included(_), TxEvent::ConfirmationTimedOut) => TxStage::Failed(
                ChainCommunicationError::TxTimeout,
            ),
            _ => self,
        }
    }

    /// The action this stage calls for.
    pub fn action(self) -> (r: TxAction)
        ensures
            r == action_of(self),
    {
        match self {
            TxStage::Built => TxAction::Send,
            TxStage::Sent => TxAction::AwaitInclusion,
            TxStage::Included(h) => TxAction::AwaitConfirmation(h),
            TxStage::Confirmed(rc) => TxAction::Complete(rc),
            TxStage::Failed(e) => TxAction::Abort(e),
        }
    }
}

/// The stage of a transaction that was built and then saw `events`.
pub fn replay(events: &Vec<TxEvent>) -> (r: TxStage)
    ensures
        r == stage_after_all(TxStage::Built, events@),
{
    let mut stage = TxStage::Built;
    let mut k: usize = 0;
    assert(events@.subrange(0, events@.len() as int) =~= events@);
    while k < events.len()
        invariant
            k <= events@.len(),
            stage_after_all(stage, events@.subrange(k as int, events@.len() as int))
                == stage_after_all(TxStage::Built, events@),
        decreases events@.len() - k,
    {
        proof {
            let rest = events@.subrange(k as int, events@.len() as int);
            assert(rest.drop_first() =~= events@.subrange(k + 1, events@.len() as int));
        }
        stage = stage.advance(events[k]);
        k = k + 1;
    }
    stage
}

/// A transaction that is included and then cannot be found at its
/// confirmation depth fails with `DroppedError` carrying the hash under
/// which it was included, whatever that hash is.
pub proof fn lemma_dropped_keeps_hash(tx_hash: Digest)
    ensures
        stage_after_all(
            TxStage::Built,
            seq![TxEvent::SendAccepted, TxEvent::InclusionReported(tx_hash), TxEvent::ConfirmationMissing],
        ) == TxStage::Failed(ChainCommunicationError::DroppedError(tx_hash)),
{
    let events = seq![TxEvent::SendAccepted, TxEvent::InclusionReported(tx_hash), TxEvent::ConfirmationMissing];
    assert(events.drop_first() =~= seq![TxEvent::InclusionReported(tx_hash), TxEvent::ConfirmationMissing]);
    assert(events.drop_first().drop_first() =~= seq![TxEvent::ConfirmationMissing]);
    assert(events.drop_first().drop_first().drop_first() =~= Seq::<TxEvent>::empty());
    reveal_with_fuel(stage_after_all, 4);
}

/// The lowercase hexadecimal digit of a value below 16.
pub open spec fn hex_digit(v: u8) -> char {
    if v < 10 {
        ((48 + v) as u8) as char
    } else {
        ((87 + v) as u8) as char
    }
}

/// Two lowercase hexadecimal digits per byte, high digit first.
pub open spec fn hex_text(bytes: Seq<u8>) -> Seq<char> {
    Seq::new(
        2 * bytes.len(),
        |i: int|
            if i % 2 == 0 {
                hex_digit(bytes[i / 2] / 16)
            } else {
                hex_digit(bytes[i / 2] % 16)
            },
    )
}

/// Relies on hex::encode: two lowercase digits per byte, high digit first.
#[verifier::external_body]
fn encode_hex(data: &[u8]) -> (r: String)
    ensures
        r@ == hex_text(data@),
{
    hex::encode(data)
}

/// The payload as operators see it in the dispatch records: `0x` and then
/// two lowercase hexadecimal digits per byte.
pub fn payload_hex(data: &[u8]) -> (r: String)
    ensures
        r@ == seq!['0', 'x'] + hex_text(data@),
{
    let digits = encode_hex(data);
    let mut text = "0x".to_owned();
    proof {
        reveal_strlit("0x");
    }
    text.append(digits.as_str());
    text
}

} // verus!
