//! Checking the header of a block against a state, and applying it.
use crate::block::{body_root, Block, BlockHeader, BlockView};
use crate::checkpoint::Checkpoint;
use crate::error::TransitionError;
use crate::ssz::SszHash;
use crate::state::{
    copy_digests, copy_flags, is_proposer_for, kept, view_result, State, StateView,
    HISTORY_LIMIT,
};
use crate::types::{digest_of, lemma_bytes32_ext, lemma_digest_of, zero_digest, Bytes32};
use vstd::prelude::*;

verus! {

impl StateView {
    /// The block's header checked against this state and applied to it.
    ///
    /// The block must be for this state's slot, after the latest header, from
    /// the slot's proposer, and built on the latest header: these four checks
    /// decide, and nothing else does. The history then gets the parent's
    /// root for the parent's slot and the zero digest for each slot that was
    /// skipped since; the parent's slot is marked justified only when the
    /// parent is the genesis block, and the skipped slots are not. Where the
    /// history or the flags outgrow what a state can keep, that list is
    /// dropped whole. The new latest header is the block's, without a state
    /// root yet. The first block after genesis gives the justified and the
    /// finalized checkpoint their root: that of the genesis header.
    pub open spec fn process_block_header(self, block: BlockView) -> Result<
        StateView,
        TransitionError,
    > {
        let parent = self.latest_block_header;
        if block.slot != self.slot {
            Err(TransitionError::SlotMismatch)
        } else if block.slot.0 <= parent.slot.0 {
            Err(TransitionError::BlockOlderThanLatestHeader)
        } else if !is_proposer_for(
            self.slot.0,
            self.config.num_validators,
            block.proposer_index.0,
        ) {
            Err(TransitionError::IncorrectProposer)
        } else if block.parent_root@ != parent.tree_root() {
            Err(TransitionError::ParentRootMismatch)
        } else {
            let skipped = (block.slot.0 - parent.slot.0 - 1) as nat;
            let hashes = self.historical_block_hashes.push(block.parent_root) + Seq::new(
                skipped,
                |i: int| zero_digest(),
            );
            let flags = self.justified_slots.push(parent.slot.0 == 0) + Seq::new(
                skipped,
                |i: int| false,
            );
            Ok(
                StateView {
                    latest_block_header: BlockHeader {
                        slot: block.slot,
                        proposer_index: block.proposer_index,
                        parent_root: block.parent_root,
                        state_root: zero_digest(),
                        body_root: digest_of(body_root(block.body)),
                    },
                    latest_justified: if parent.slot.0 == 0 {
                        Checkpoint { root: block.parent_root, ..self.latest_justified }
                    } else {
                        self.latest_justified
                    },
                    latest_finalized: if parent.slot.0 == 0 {
                        Checkpoint { root: block.parent_root, ..self.latest_finalized }
                    } else {
                        self.latest_finalized
                    },
                    historical_block_hashes: kept(hashes, HISTORY_LIMIT as nat),
                    justified_slots: kept(flags, HISTORY_LIMIT as nat),
                    ..self
                },
            )
        }
    }

    /// Whether the four checks of a block's header pass on this state.
    pub open spec fn header_fits(self, block: BlockView) -> bool {
        &&& block.slot == self.slot
        &&& block.slot.0 > self.latest_block_header.slot.0
        &&& is_proposer_for(self.slot.0, self.config.num_validators, block.proposer_index.0)
        &&& block.parent_root@ == self.latest_block_header.tree_root()
    }
}

impl State {
    /// Checks the block's header against this state and applies it.
    ///
    /// Refused, in this order: a block that is not for this state's slot; one
    /// that is not after the latest header; one whose proposer is not the
    /// slot's; one whose parent root is not the root of the latest header.
    /// Every other block is applied.
    pub fn process_block_header(&self, block: &Block) -> (result: Result<State, TransitionError>)
        ensures
            view_result(result) == self@.process_block_header(block@),
            result is Ok == self@.header_fits(block@),
            self@.wf() ==> (result matches Ok(post) ==> post@.wf()),
    {
        if block.slot.0 != self.slot.0 {
            return Err(TransitionError::SlotMismatch);
        }
        if block.slot.0 <= self.latest_block_header.slot.0 {
            return Err(TransitionError::BlockOlderThanLatestHeader);
        }
        if self.config.num_validators == 0 || !self.is_proposer(block.proposer_index) {
            return Err(TransitionError::IncorrectProposer);
        }
        let parent_root = self.latest_block_header.hash_tree_root();
        if block.parent_root != parent_root {
            proof {
                if block.parent_root@ == parent_root@ {
                    lemma_bytes32_ext(block.parent_root, parent_root);
                }
            }
            return Err(TransitionError::ParentRootMismatch);
        }
        let parent_is_genesis = self.latest_block_header.slot.0 == 0;
        let num_empty_slots: u64 = block.slot.0 - self.latest_block_header.slot.0 - 1;
        let new_historical_hashes = extended_digests(
            &self.historical_block_hashes,
            parent_root,
            num_empty_slots,
        );
        let new_justified_slots = extended_flags(
            &self.justified_slots,
            parent_is_genesis,
            num_empty_slots,
        );

        let body_root = block.body.hash_tree_root();
        proof {
            lemma_digest_of(body_root);
        }
        let new_latest_block_header = BlockHeader {
            slot: block.slot,
            proposer_index: block.proposer_index,
            parent_root: block.parent_root,
            body_root,
            state_root: Bytes32::zero(),
        };

        let mut new_latest_justified = self.latest_justified;
        let mut new_latest_finalized = self.latest_finalized;
        if parent_is_genesis {
            new_latest_justified.root = parent_root;
            new_latest_finalized.root = parent_root;
        }
        Ok(
            State {
                config: self.config,
                slot: self.slot,
                latest_block_header: new_latest_block_header,
                latest_justified: new_latest_justified,
                latest_finalized: new_latest_finalized,
                historical_block_hashes: new_historical_hashes,
                justified_slots: new_justified_slots,
                justifications_roots: copy_digests(&self.justifications_roots),
                justifications_validators: copy_flags(&self.justifications_validators),
            },
        )
    }
}

/// The history with one more root, and after it the zero digest for each of
/// `skipped` slots: as far as a state can keep it, else none of it.
fn extended_digests(digests: &Vec<Bytes32>, next: Bytes32, skipped: u64) -> (longer: Vec<Bytes32>)
    ensures
        longer@ == kept(
            digests@.push(next) + Seq::new(skipped as nat, |i: int| zero_digest()),
            HISTORY_LIMIT as nat,
        ),
{
    let len = digests.len();
    if len >= HISTORY_LIMIT || skipped >= HISTORY_LIMIT as u64 || len + 1 + skipped as usize
        > HISTORY_LIMIT {
        return Vec::new();
    }
    let mut longer = copy_digests(digests);
    longer.push(next);
    let ghost first = longer@;
    let mut i: u64 = 0;
    while i < skipped
        invariant
            i <= skipped,
            longer@ == first + Seq::new(i as nat, |k: int| zero_digest()),
        decreases skipped - i,
    {
        longer.push(Bytes32::zero());
        i += 1;
        assert(longer@ =~= first + Seq::new(i as nat, |k: int| zero_digest()));
    }
    longer
}

/// The flags with one more flag, and after it an unset flag for each of
/// `skipped` slots: as far as a state can keep them, else none of them.
fn extended_flags(flags: &Vec<bool>, next: bool, skipped: u64) -> (longer: Vec<bool>)
    ensures
        longer@ == kept(
            flags@.push(next) + Seq::new(skipped as nat, |i: int| false),
            HISTORY_LIMIT as nat,
        ),
{
    let len = flags.len();
    if len >= HISTORY_LIMIT || skipped >= HISTORY_LIMIT as u64 || len + 1 + skipped as usize
        > HISTORY_LIMIT {
        return Vec::new();
    }
    let mut longer = copy_flags(flags);
    longer.push(next);
    let ghost first = longer@;
    let mut i: u64 = 0;
    while i < skipped
        invariant
            i <= skipped,
            longer@ == first + Seq::new(i as nat, |k: int| false),
        decreases skipped - i,
    {
        longer.push(false);
        i += 1;
        assert(longer@ =~= first + Seq::new(i as nat, |k: int| false));
    }
    longer
}

/// The four checks decide alone. A state comes out exactly when they pass,
/// and each refusal comes with its own reason: a block for another slot, a
/// block that is not after the latest header, a block from another proposer,
/// a block on another parent. Nothing else is fatal; in particular no block
/// is refused for what a state can keep.
pub proof fn lemma_header_checks_decide(s: StateView, block: BlockView)
    ensures
        s.process_block_header(block) is Ok == s.header_fits(block),
        s.process_block_header(block) == Err::<StateView, TransitionError>(
            TransitionError::SlotMismatch,
        ) <==> block.slot != s.slot,
        s.process_block_header(block) == Err::<StateView, TransitionError>(
            TransitionError::BlockOlderThanLatestHeader,
        ) <==> block.slot == s.slot && block.slot.0 <= s.latest_block_header.slot.0,
        s.process_block_header(block) == Err::<StateView, TransitionError>(
            TransitionError::IncorrectProposer,
        ) <==> block.slot == s.slot && block.slot.0 > s.latest_block_header.slot.0
            && !is_proposer_for(s.slot.0, s.config.num_validators, block.proposer_index.0),
        s.process_block_header(block) == Err::<StateView, TransitionError>(
            TransitionError::ParentRootMismatch,
        ) <==> block.slot == s.slot && block.slot.0 > s.latest_block_header.slot.0
            && is_proposer_for(s.slot.0, s.config.num_validators, block.proposer_index.0)
            && block.parent_root@ != s.latest_block_header.tree_root(),
{
}

/// What a block whose header passes the checks leaves behind: a latest
/// header made of the block's fields, with the zero digest for its state
/// root, whatever state root the block declares; the configuration, the
/// slot, the votes in progress and the slots of the two checkpoints as they
/// were; and the roots of the two checkpoints as they were, unless the
/// parent is the genesis block, whose root they get.
pub proof fn lemma_header_applied(s: StateView, block: BlockView)
    requires
        s.header_fits(block),
    ensures
        s.process_block_header(block) is Ok,
        ({
            let post = s.process_block_header(block)->Ok_0;
            let parent_is_genesis = s.latest_block_header.slot.0 == 0;
            &&& post.latest_block_header == (BlockHeader {
                slot: block.slot,
                proposer_index: block.proposer_index,
                parent_root: block.parent_root,
                state_root: zero_digest(),
                body_root: digest_of(body_root(block.body)),
            })
            &&& post.config == s.config
            &&& post.slot == s.slot
            &&& post.justifications_roots == s.justifications_roots
            &&& post.justifications_validators == s.justifications_validators
            &&& post.latest_justified.slot == s.latest_justified.slot
            &&& post.latest_finalized.slot == s.latest_finalized.slot
            &&& post.latest_justified.root == if parent_is_genesis {
                block.parent_root
            } else {
                s.latest_justified.root
            }
            &&& post.latest_finalized.root == if parent_is_genesis {
                block.parent_root
            } else {
                s.latest_finalized.root
            }
            &&& block.parent_root@ == s.latest_block_header.tree_root()
            &&& s.wf() ==> post.wf()
        }),
{
}

} // verus!
