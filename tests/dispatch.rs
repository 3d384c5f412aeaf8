use optics_base::dispatch::{payload_hex, replay, Receipt, TxAction, TxEvent, TxStage};
use optics_base::error::ChainCommunicationError;

#[test]
fn included_then_missing_is_dropped_with_hash() {
    let hash = [0xabu8; 32];
    let stage = replay(&vec![
        TxEvent::SendAccepted,
        TxEvent::InclusionReported(hash),
        TxEvent::ConfirmationMissing,
    ]);
    assert_eq!(stage, TxStage::Failed(ChainCommunicationError::DroppedError(hash)));
    assert_eq!(stage.action(), TxAction::Abort(ChainCommunicationError::DroppedError(hash)));
}

#[test]
fn full_lifecycle_confirms() {
    let hash = [7u8; 32];
    let receipt = Receipt { transaction_hash: hash, block_number: 42 };
    let mut stage = TxStage::Built;
    assert_eq!(stage.action(), TxAction::Send);
    stage = stage.advance(TxEvent::SendAccepted);
    assert_eq!(stage.action(), TxAction::AwaitInclusion);
    stage = stage.advance(TxEvent::InclusionReported(hash));
    assert_eq!(stage.action(), TxAction::AwaitConfirmation(hash));
    stage = stage.advance(TxEvent::ConfirmationReported(receipt));
    assert_eq!(stage.action(), TxAction::Complete(receipt));
    assert_eq!(stage.advance(TxEvent::ConfirmationMissing), TxStage::Confirmed(receipt));
}

#[test]
fn failures_map_to_their_kinds() {
    assert_eq!(
        TxStage::Built.advance(TxEvent::SendRejected),
        TxStage::Failed(ChainCommunicationError::ConnectionError)
    );
    assert_eq!(
        TxStage::Sent.advance(TxEvent::InclusionTimedOut),
        TxStage::Failed(ChainCommunicationError::TxTimeout)
    );
    assert_eq!(
        TxStage::Included([1u8; 32]).advance(TxEvent::ConfirmationTimedOut),
        TxStage::Failed(ChainCommunicationError::TxTimeout)
    );
    assert_eq!(TxStage::Built.advance(TxEvent::ConfirmationMissing), TxStage::Built);
}

#[test]
fn retryable_kinds() {
    assert!(ChainCommunicationError::ConnectionError.is_retryable());
    assert!(ChainCommunicationError::TxTimeout.is_retryable());
    assert!(ChainCommunicationError::DroppedError([0u8; 32]).is_retryable());
    assert!(!ChainCommunicationError::ContractError.is_retryable());
    assert!(!ChainCommunicationError::ParseError.is_retryable());
}

#[test]
fn payload_is_prefixed_lowercase_hex() {
    assert_eq!(payload_hex(&[0x01, 0xab, 0xff, 0x00]), "0x01abff00");
    assert_eq!(payload_hex(&[]), "0x");
}
