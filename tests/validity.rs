use optics_base::merkle::Leaf;
use optics_base::validity::{classify, ListValidity};

fn leaf(index: u32) -> Leaf {
    Leaf { index, digest: [index as u8; 32] }
}

#[test]
fn empty_observation_is_empty() {
    assert_eq!(classify(None, &vec![]), ListValidity::Empty);
    assert_eq!(classify(Some(leaf(5)), &vec![]), ListValidity::Empty);
}

#[test]
fn continuation_of_tip_is_valid() {
    assert_eq!(classify(Some(leaf(5)), &vec![leaf(6), leaf(7)]), ListValidity::Valid);
}

#[test]
fn wrong_first_index_is_invalid_continuation() {
    assert_eq!(classify(Some(leaf(5)), &vec![leaf(7)]), ListValidity::InvalidContinuation);
    assert_eq!(classify(Some(leaf(5)), &vec![leaf(5), leaf(6)]), ListValidity::InvalidContinuation);
    assert_eq!(classify(Some(leaf(u32::MAX)), &vec![leaf(0)]), ListValidity::InvalidContinuation);
}

#[test]
fn later_skip_contains_gaps() {
    assert_eq!(classify(Some(leaf(5)), &vec![leaf(6), leaf(8)]), ListValidity::ContainsGaps);
    assert_eq!(classify(Some(leaf(5)), &vec![leaf(6), leaf(7), leaf(7)]), ListValidity::ContainsGaps);
    assert_eq!(classify(Some(leaf(5)), &vec![leaf(6), leaf(7), leaf(6)]), ListValidity::ContainsGaps);
}

#[test]
fn without_tip_must_start_at_zero() {
    assert_eq!(classify(None, &vec![leaf(1)]), ListValidity::ContainsGaps);
    assert_eq!(classify(None, &vec![leaf(0), leaf(1), leaf(2)]), ListValidity::Valid);
    assert_eq!(classify(None, &vec![leaf(0), leaf(2)]), ListValidity::ContainsGaps);
}
