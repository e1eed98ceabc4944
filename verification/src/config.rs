//! The configuration that a chain starts with.
use crate::ssz::{merkle_root, merkleize, push_u64_chunk, u64_chunk, SszHash};
use crate::types::Bytes32;
use vstd::prelude::*;

verus! {

/// What is fixed when a chain starts.
#[derive(Clone, Copy, Debug, PartialEq, Eq, Structural, Default)]
pub struct Config {
    /// total validators in the network
    pub num_validators: u64,
    /// genesis timestamp (seconds since UNIX epoch)
    pub genesis_time: u64,
}

impl SszHash for Config {
    open spec fn tree_root(&self) -> Seq<u8> {
        merkle_root(u64_chunk(self.num_validators) + u64_chunk(self.genesis_time), None)
    }

    fn hash_tree_root(&self) -> (root: Bytes32) {
        let mut chunks: Vec<u8> = Vec::new();
        push_u64_chunk(&mut chunks, self.num_validators);
        push_u64_chunk(&mut chunks, self.genesis_time);
        proof {
            vstd::bytes::lemma_auto_spec_u64_to_from_le_bytes();
            assert(chunks@ =~= u64_chunk(self.num_validators) + u64_chunk(self.genesis_time));
        }
        merkleize(&chunks, None)
    }
}

} // verus!
