//! Checkpoints: the root and the slot of a block that votes point at.
use crate::slot::Slot;
use crate::ssz::{merkle_root, merkleize, push_digest, push_u64_chunk, u64_chunk, SszHash};
use crate::types::Bytes32;
use vstd::prelude::*;
use vstd::std_specs::cmp::PartialEqSpecImpl;

verus! {

/// A block named by its root and its slot: what a vote points at.
#[derive(Clone, Copy, Debug, Eq, Default)]
pub struct Checkpoint {
    pub root: Bytes32,
    pub slot: Slot,
}

impl PartialEq for Checkpoint {
    fn eq(&self, other: &Checkpoint) -> (r: bool) {
        self.root == other.root && self.slot.0 == other.slot.0
    }
}

impl PartialEqSpecImpl for Checkpoint {
    open spec fn obeys_eq_spec() -> bool {
        true
    }

    open spec fn eq_spec(&self, other: &Checkpoint) -> bool {
        *self == *other
    }
}

impl SszHash for Checkpoint {
    open spec fn tree_root(&self) -> Seq<u8> {
        merkle_root(self.root@ + u64_chunk(self.slot.0), None)
    }

    fn hash_tree_root(&self) -> (root: Bytes32) {
        let mut chunks: Vec<u8> = Vec::new();
        push_digest(&mut chunks, &self.root);
        push_u64_chunk(&mut chunks, self.slot.0);
        proof {
            vstd::bytes::lemma_auto_spec_u64_to_from_le_bytes();
            assert(chunks@ =~= self.root@ + u64_chunk(self.slot.0));
        }
        merkleize(&chunks, None)
    }
}

} // verus!
