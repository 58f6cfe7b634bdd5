//! The ways in which an operation is turned down.

use vstd::prelude::*;

verus! {

/// Why a string is not the hex form of a 32-byte value.
#[derive(Clone, Copy, Debug, PartialEq, Eq)]
pub enum HexError {
    /// The byte at `index` is no hex digit; `c` is that byte as a character.
    InvalidHexCharacter { c: char, index: usize },
    /// The string has an odd number of bytes.
    OddLength,
    /// The string has an even number of bytes, but not 64.
    InvalidStringLength,
}

/// The first rule that a distribution schedule breaks.
#[derive(Clone, Copy, Debug, PartialEq, Eq)]
pub enum ScheduleError {
    /// The schedule has no segment.
    Empty,
    /// Segment `index` starts after it ends.
    StartAfterEnd { index: usize },
    /// Segment `index` releases nothing.
    ZeroRatio { index: usize },
    /// Segment `index` starts before the segment in front of it has ended.
    Overlap { index: usize },
    /// Every segment is in order, but the ratios do not add up to one.
    SumNotOne,
}

/// Why the ledger turns an operation down.
#[derive(Clone, Debug, PartialEq, Eq)]
pub enum ContractError {
    /// The configuration exists already.
    AlreadyConfigured,
    /// The distribution schedule was refused.
    InvalidSchedule(ScheduleError),
    /// A proof element or the Merkle root is not the hex form of 32 bytes.
    Hex(HexError),
    /// No Merkle root has been registered yet.
    MerkleRootNotFound,
    /// An amount does not fit in 128 bits, or a time lies before the time it is
    /// measured from.
    Overflow,
    /// The sender is not the administrator.
    Unauthorized,
    /// The sender already holds an assignment.
    Claimed,
    /// The proof does not lead to the registered root.
    VerificationFailed,
    /// The stored contract name is not this contract's.
    CannotMigrate { previous_contract: String },
    /// The airdrop expired at `expiration`, in seconds.
    Expired { expiration: u64 },
    /// The airdrop expires only at `expiration`, in seconds.
    NotExpired { expiration: u64 },
}

} // verus!
