//! Commitment levels: how durable a slot is on the source chain.

use vstd::prelude::*;

verus! {

/// A confidence level of a slot, ordered Processed, Confirmed, Finalized.
#[derive(Debug, Clone, Copy, PartialEq, Eq, Structural)]
pub enum CommitmentLevel {
    Processed,
    Confirmed,
    Finalized,
}

/// The status under which the validator reports a slot.
#[derive(Debug, Clone, Copy, PartialEq, Eq, Structural)]
pub enum SlotStatus {
    Processed,
    Rooted,
    Confirmed,
}

impl CommitmentLevel {
    /// Position of the level in the order Processed, Confirmed, Finalized.
    /// It is also the number that stands for the level on the wire.
    pub open spec fn rank(self) -> int {
        match self {
            CommitmentLevel::Processed => 0,
            CommitmentLevel::Confirmed => 1,
            CommitmentLevel::Finalized => 2,
        }
    }

    /// The level that a wire number stands for, if any.
    pub open spec fn of_code(code: int) -> Option<CommitmentLevel> {
        if code == 0 {
            Some(CommitmentLevel::Processed)
        } else if code == 1 {
            Some(CommitmentLevel::Confirmed)
        } else if code == 2 {
            Some(CommitmentLevel::Finalized)
        } else {
            None
        }
    }

    /// `self` is at most as durable as `other`.
    pub open spec fn at_most(self, other: CommitmentLevel) -> bool {
        self.rank() <= other.rank()
    }

    /// The level of a validator slot status: a rooted slot is finalized.
    pub open spec fn of_status(status: SlotStatus) -> CommitmentLevel {
        match status {
            SlotStatus::Processed => CommitmentLevel::Processed,
            SlotStatus::Confirmed => CommitmentLevel::Confirmed,
            SlotStatus::Rooted => CommitmentLevel::Finalized,
        }
    }

    /// The wire number of the level.
    pub fn as_i32(self) -> (code: i32)
        ensures
            code == self.rank(),
    {
        match self {
            CommitmentLevel::Processed => 0,
            CommitmentLevel::Confirmed => 1,
            CommitmentLevel::Finalized => 2,
        }
    }

    /// Decodes a wire number; numbers other than 0, 1 and 2 stand for no level.
    pub fn from_i32(code: i32) -> (level: Option<CommitmentLevel>)
        ensures
            level == Self::of_code(code as int),
    {
        if code == 0 {
            Some(CommitmentLevel::Processed)
        } else if code == 1 {
            Some(CommitmentLevel::Confirmed)
        } else if code == 2 {
            Some(CommitmentLevel::Finalized)
        } else {
            None
        }
    }

    /// Converts the validator's slot status into a commitment level.
    pub fn from_status(status: SlotStatus) -> (level: CommitmentLevel)
        ensures
            level == Self::of_status(status),
    {
        match status {
            SlotStatus::Processed => CommitmentLevel::Processed,
            SlotStatus::Confirmed => CommitmentLevel::Confirmed,
            SlotStatus::Rooted => CommitmentLevel::Finalized,
        }
    }
}

/// Decoding inverts encoding: every level is recovered from its wire number.
pub proof fn lemma_code_round_trip(level: CommitmentLevel)
    ensures
        CommitmentLevel::of_code(level.rank()) == Some(level),
{
}

/// A wire number decodes to a level exactly when it lies in 0..=2, and then
/// the level encodes back to the same number.
pub proof fn lemma_decode_range(code: int)
    ensures
        CommitmentLevel::of_code(code) is Some <==> 0 <= code <= 2,
        CommitmentLevel::of_code(code) matches Some(level) ==> level.rank() == code,
{
}

/// The order on levels is total: Processed below Confirmed below Finalized.
pub proof fn lemma_commitment_order(a: CommitmentLevel, b: CommitmentLevel, c: CommitmentLevel)
    ensures
        a.at_most(a),
        a.at_most(b) || b.at_most(a),
        a.at_most(b) && b.at_most(a) ==> a == b,
        a.at_most(b) && b.at_most(c) ==> a.at_most(c),
        CommitmentLevel::Processed.at_most(CommitmentLevel::Confirmed),
        CommitmentLevel::Confirmed.at_most(CommitmentLevel::Finalized),
{
}

} // verus!
