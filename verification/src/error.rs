//! The reasons for which a block is refused.
use vstd::prelude::*;

verus! {

/// Why a block was not applied to a state. Each is fatal for the block: no
/// state comes out.
#[derive(Clone, Copy, Debug, PartialEq, Eq, Structural)]
pub enum TransitionError {
    /// The caller found the block's signatures invalid.
    InvalidSignatures,
    /// The slot to advance to is not after the state's slot.
    TargetSlotNotInFuture,
    /// The block is not for the state's slot.
    SlotMismatch,
    /// The block is not after the latest block header.
    BlockOlderThanLatestHeader,
    /// The block's proposer is not the validator whose turn it is.
    IncorrectProposer,
    /// The block does not build on the latest block header.
    ParentRootMismatch,
    /// The state that the block leads to is not the one it declares.
    InvalidStateRoot,
}

impl TransitionError {
    /// The words for the error.
    pub open spec fn text(self) -> Seq<char> {
        match self {
            TransitionError::InvalidSignatures => "Block signatures must be valid"@,
            TransitionError::TargetSlotNotInFuture => "Target slot must be in the future"@,
            TransitionError::SlotMismatch => "Block slot mismatch"@,
            TransitionError::BlockOlderThanLatestHeader => "Block is older than latest header"@,
            TransitionError::IncorrectProposer => "Incorrect block proposer"@,
            TransitionError::ParentRootMismatch => "Block parent root mismatch"@,
            TransitionError::InvalidStateRoot => "Invalid block state root"@,
        }
    }

    /// The words for the error, for a log or a message to a peer.
    pub fn message(&self) -> (words: &'static str)
        ensures
            words@ == self.text(),
    {
        match self {
            TransitionError::InvalidSignatures => "Block signatures must be valid",
            TransitionError::TargetSlotNotInFuture => "Target slot must be in the future",
            TransitionError::SlotMismatch => "Block slot mismatch",
            TransitionError::BlockOlderThanLatestHeader => "Block is older than latest header",
            TransitionError::IncorrectProposer => "Incorrect block proposer",
            TransitionError::ParentRootMismatch => "Block parent root mismatch",
            TransitionError::InvalidStateRoot => "Invalid block state root",
        }
    }
}

} // verus!
