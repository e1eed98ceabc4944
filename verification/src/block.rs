//! Blocks, their headers and bodies, and their hash tree roots.
use crate::slot::Slot;
use crate::ssz::{
    concat_chunks, lemma_concat_chunks_push, list_root, merkle_root, merkleize,
    mix_in_list_length, push_digest, push_u64_chunk, u64_chunk, SszHash,
};
use crate::types::{zero_bytes, Bytes32, ValidatorIndex};
use crate::vote::SignedVote;
use vstd::prelude::*;

verus! {

/// The most attestations that a block can carry.
pub const MAX_ATTESTATIONS: usize = 1024;

/// What a block carries besides its header fields.
#[derive(Clone, Debug, PartialEq, Eq, Default)]
pub struct BlockBody {
    pub attestations: Vec<SignedVote>,
}

/// The summary of a block that the next block's `parent_root` commits to.
#[derive(Clone, Copy, Debug, PartialEq, Eq, Default)]
pub struct BlockHeader {
    pub slot: Slot,
    pub proposer_index: ValidatorIndex,
    pub parent_root: Bytes32,
    pub state_root: Bytes32,
    pub body_root: Bytes32,
}

/// A block: a proposer's claim that `state_root` is the root of the state
/// that the block leads to from the state behind `parent_root`.
#[derive(Clone, Debug, PartialEq, Eq, Default)]
pub struct Block {
    pub slot: Slot,
    pub proposer_index: ValidatorIndex,
    pub parent_root: Bytes32,
    pub state_root: Bytes32,
    pub body: BlockBody,
}

/// A block with its signature. The signature is carried, never checked here.
#[derive(Clone, Debug, PartialEq, Eq, Default)]
pub struct SignedBlock {
    pub message: Block,
    /// Placeholder for real signature type
    pub signature: Bytes32,
}

/// A block as a value: its body is the sequence of its attestations.
pub struct BlockView {
    pub slot: Slot,
    pub proposer_index: ValidatorIndex,
    pub parent_root: Bytes32,
    pub state_root: Bytes32,
    pub body: Seq<SignedVote>,
}

/// A signed block as a value.
pub struct SignedBlockView {
    pub message: BlockView,
    pub signature: Bytes32,
}

impl View for BlockBody {
    type V = Seq<SignedVote>;

    open spec fn view(&self) -> Seq<SignedVote> {
        self.attestations@
    }
}

impl View for Block {
    type V = BlockView;

    open spec fn view(&self) -> BlockView {
        BlockView {
            slot: self.slot,
            proposer_index: self.proposer_index,
            parent_root: self.parent_root,
            state_root: self.state_root,
            body: self.body@,
        }
    }
}

impl View for SignedBlock {
    type V = SignedBlockView;

    open spec fn view(&self) -> SignedBlockView {
        SignedBlockView { message: self.message@, signature: self.signature }
    }
}

/// The roots of the votes of a list, in the list's order.
pub open spec fn vote_roots(votes: Seq<SignedVote>) -> Seq<Seq<u8>> {
    Seq::new(votes.len(), |i: int| votes[i].tree_root())
}

/// The root of a body with the given attestations. A body that holds more
/// than [`MAX_ATTESTATIONS`] has no place in the tree, and the zero digest
/// stands for its root.
pub open spec fn body_root(attestations: Seq<SignedVote>) -> Seq<u8> {
    if attestations.len() <= MAX_ATTESTATIONS {
        merkle_root(list_root(vote_roots(attestations), MAX_ATTESTATIONS), None)
    } else {
        zero_bytes()
    }
}

/// The root of a block, zero where its body has none.
pub open spec fn block_root(block: BlockView) -> Seq<u8> {
    if block.body.len() <= MAX_ATTESTATIONS {
        merkle_root(
            u64_chunk(block.slot.0) + u64_chunk(block.proposer_index.0) + block.parent_root@
                + block.state_root@ + body_root(block.body),
            None,
        )
    } else {
        zero_bytes()
    }
}

/// The root of a signed block, zero where its body has none.
pub open spec fn signed_block_root(signed: SignedBlockView) -> Seq<u8> {
    if signed.message.body.len() <= MAX_ATTESTATIONS {
        merkle_root(block_root(signed.message) + signed.signature@, None)
    } else {
        zero_bytes()
    }
}

impl SszHash for BlockBody {
    open spec fn tree_root(&self) -> Seq<u8> {
        body_root(self@)
    }

    fn hash_tree_root(&self) -> (root: Bytes32) {
        let n = self.attestations.len();
        if n > MAX_ATTESTATIONS {
            return Bytes32::zero();
        }
        let mut chunks: Vec<u8> = Vec::new();
        let mut i: usize = 0;
        assert(chunks@ =~= concat_chunks(vote_roots(self@).take(0)));
        while i < n
            invariant
                i <= n,
                n == self.attestations@.len(),
                chunks@ == concat_chunks(vote_roots(self@).take(i as int)),
            decreases n - i,
        {
            let vote_root = self.attestations[i].hash_tree_root();
            push_digest(&mut chunks, &vote_root);
            proof {
                lemma_concat_chunks_push(vote_roots(self@).take(i as int), vote_root@);
                assert(vote_roots(self@).take(i as int).push(vote_root@) =~= vote_roots(
                    self@,
                ).take(i + 1));
            }
            i += 1;
        }
        assert(vote_roots(self@).take(n as int) =~= vote_roots(self@));
        let data_root = merkleize(&chunks, Some(MAX_ATTESTATIONS));
        let list = mix_in_list_length(&data_root, n);
        let mut leaf: Vec<u8> = Vec::new();
        push_digest(&mut leaf, &list);
        assert(leaf@ =~= list@);
        merkleize(&leaf, None)
    }
}

impl SszHash for BlockHeader {
    open spec fn tree_root(&self) -> Seq<u8> {
        merkle_root(
            u64_chunk(self.slot.0) + u64_chunk(self.proposer_index.0) + self.parent_root@
                + self.state_root@ + self.body_root@,
            None,
        )
    }

    fn hash_tree_root(&self) -> (root: Bytes32) {
        let mut chunks: Vec<u8> = Vec::new();
        push_u64_chunk(&mut chunks, self.slot.0);
        push_u64_chunk(&mut chunks, self.proposer_index.0);
        push_digest(&mut chunks, &self.parent_root);
        push_digest(&mut chunks, &self.state_root);
        push_digest(&mut chunks, &self.body_root);
        proof {
            vstd::bytes::lemma_auto_spec_u64_to_from_le_bytes();
            assert(chunks@ =~= u64_chunk(self.slot.0) + u64_chunk(self.proposer_index.0)
                + self.parent_root@ + self.state_root@ + self.body_root@);
        }
        merkleize(&chunks, None)
    }
}

impl SszHash for Block {
    open spec fn tree_root(&self) -> Seq<u8> {
        block_root(self@)
    }

    fn hash_tree_root(&self) -> (root: Bytes32) {
        if self.body.attestations.len() > MAX_ATTESTATIONS {
            return Bytes32::zero();
        }
        let body = self.body.hash_tree_root();
        let mut chunks: Vec<u8> = Vec::new();
        push_u64_chunk(&mut chunks, self.slot.0);
        push_u64_chunk(&mut chunks, self.proposer_index.0);
        push_digest(&mut chunks, &self.parent_root);
        push_digest(&mut chunks, &self.state_root);
        push_digest(&mut chunks, &body);
        proof {
            vstd::bytes::lemma_auto_spec_u64_to_from_le_bytes();
            assert(chunks@ =~= u64_chunk(self.slot.0) + u64_chunk(self.proposer_index.0)
                + self.parent_root@ + self.state_root@ + body_root(self.body@));
        }
        merkleize(&chunks, None)
    }
}

impl SszHash for SignedBlock {
    open spec fn tree_root(&self) -> Seq<u8> {
        signed_block_root(self@)
    }

    fn hash_tree_root(&self) -> (root: Bytes32) {
        if self.message.body.attestations.len() > MAX_ATTESTATIONS {
            return Bytes32::zero();
        }
        let message = self.message.hash_tree_root();
        let mut chunks: Vec<u8> = Vec::new();
        push_digest(&mut chunks, &message);
        push_digest(&mut chunks, &self.signature);
        assert(chunks@ =~= block_root(self.message@) + self.signature@);
        merkleize(&chunks, None)
    }
}

/// The hash tree root of `value`: of a header, a body, a block, a vote, a
/// checkpoint, a state.
pub fn hash_tree_root<T: SszHash>(value: &T) -> (root: Bytes32)
    ensures
        root@ == value.tree_root(),
{
    value.hash_tree_root()
}

} // verus!
