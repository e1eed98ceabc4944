//! Votes.
use crate::checkpoint::Checkpoint;
use crate::slot::Slot;
use crate::ssz::{merkle_root, merkleize, push_digest, push_u64_chunk, u64_chunk, SszHash};
use crate::types::{Bytes32, Uint64};
use vstd::prelude::*;

verus! {

/// A validator's vote: from the justified checkpoint `source` to `target`.
#[derive(Clone, Copy, Debug, PartialEq, Eq, Default)]
pub struct Vote {
    pub validator_id: Uint64,
    pub slot: Slot,
    pub head: Checkpoint,
    pub target: Checkpoint,
    pub source: Checkpoint,
}

/// A vote with its signature. The signature is carried, never checked here.
#[derive(Clone, Copy, Debug, PartialEq, Eq, Default)]
pub struct SignedVote {
    pub data: Vote,
    pub signature: Bytes32,  //placeholder
}

impl SszHash for Vote {
    open spec fn tree_root(&self) -> Seq<u8> {
        merkle_root(
            u64_chunk(self.validator_id.0) + u64_chunk(self.slot.0) + self.head.tree_root()
                + self.target.tree_root() + self.source.tree_root(),
            None,
        )
    }

    fn hash_tree_root(&self) -> (root: Bytes32) {
        let head = self.head.hash_tree_root();
        let target = self.target.hash_tree_root();
        let source = self.source.hash_tree_root();
        let mut chunks: Vec<u8> = Vec::new();
        push_u64_chunk(&mut chunks, self.validator_id.0);
        push_u64_chunk(&mut chunks, self.slot.0);
        push_digest(&mut chunks, &head);
        push_digest(&mut chunks, &target);
        push_digest(&mut chunks, &source);
        proof {
            vstd::bytes::lemma_auto_spec_u64_to_from_le_bytes();
            assert(chunks@ =~= u64_chunk(self.validator_id.0) + u64_chunk(self.slot.0)
                + self.head.tree_root() + self.target.tree_root() + self.source.tree_root());
        }
        merkleize(&chunks, None)
    }
}

impl SszHash for SignedVote {
    open spec fn tree_root(&self) -> Seq<u8> {
        merkle_root(self.data.tree_root() + self.signature@, None)
    }

    fn hash_tree_root(&self) -> (root: Bytes32) {
        let data = self.data.hash_tree_root();
        let mut chunks: Vec<u8> = Vec::new();
        push_digest(&mut chunks, &data);
        push_digest(&mut chunks, &self.signature);
        assert(chunks@ =~= self.data.tree_root() + self.signature@);
        merkleize(&chunks, None)
    }
}

} // verus!
