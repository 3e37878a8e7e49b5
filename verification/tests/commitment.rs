use yellowstone_grpc_geyser::commitment::{CommitmentLevel, SlotStatus};

#[test]
fn commitment_codes_round_trip() {
    for level in [
        CommitmentLevel::Processed,
        CommitmentLevel::Confirmed,
        CommitmentLevel::Finalized,
    ] {
        assert_eq!(CommitmentLevel::from_i32(level.as_i32()), Some(level));
    }
    assert_eq!(CommitmentLevel::Processed.as_i32(), 0);
    assert_eq!(CommitmentLevel::Confirmed.as_i32(), 1);
    assert_eq!(CommitmentLevel::Finalized.as_i32(), 2);
}

#[test]
fn commitment_rejects_other_codes() {
    assert_eq!(CommitmentLevel::from_i32(3), None);
    assert_eq!(CommitmentLevel::from_i32(-1), None);
    assert_eq!(CommitmentLevel::from_i32(i32::MAX), None);
}

#[test]
fn rooted_slot_is_finalized() {
    assert_eq!(CommitmentLevel::from_status(SlotStatus::Processed), CommitmentLevel::Processed);
    assert_eq!(CommitmentLevel::from_status(SlotStatus::Confirmed), CommitmentLevel::Confirmed);
    assert_eq!(CommitmentLevel::from_status(SlotStatus::Rooted), CommitmentLevel::Finalized);
}
