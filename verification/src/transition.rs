//! The transition from a state and a signed block to the next state.
use crate::attestations::lemma_attestations_keep_wf;
use crate::block::{Block, BlockView, SignedBlock, SignedBlockView};
use crate::error::TransitionError;
use crate::slots::lemma_advance_to;
use crate::ssz::SszHash;
use crate::state::{view_result, State, StateView};
use crate::types::lemma_bytes32_ext;
use vstd::prelude::*;

verus! {

impl StateView {
    /// The state after a block: after its header, then its attestations.
    pub open spec fn process_block(self, block: BlockView) -> Result<StateView, TransitionError> {
        match self.process_block_header(block) {
            Ok(state) => Ok(state.process_attestations(block.body)),
            Err(e) => Err(e),
        }
    }

    /// The state that a signed block leads to from this one.
    ///
    /// The caller says whether the signatures are valid. The state is
    /// advanced to the block's slot, the block is applied, and the root of
    /// what comes out must be the state root that the block declares.
    pub open spec fn state_transition(
        self,
        signed_block: SignedBlockView,
        valid_signatures: bool,
    ) -> Result<StateView, TransitionError> {
        let block = signed_block.message;
        if !valid_signatures {
            Err(TransitionError::InvalidSignatures)
        } else {
            match self.process_slots(block.slot) {
                Err(e) => Err(e),
                Ok(advanced) => match advanced.process_block(block) {
                    Err(e) => Err(e),
                    Ok(post) => if block.state_root@ == post.tree_root() {
                        Ok(post)
                    } else {
                        Err(TransitionError::InvalidStateRoot)
                    },
                },
            }
        }
    }
}

impl State {
    /// Applies a block to a state that stands at the block's slot: its
    /// header, then its operations.
    pub fn process_block(&self, block: &Block) -> (result: Result<State, TransitionError>)
        requires
            self@.wf(),
        ensures
            view_result(result) == self@.process_block(block@),
            result matches Ok(post) ==> post@.wf(),
    {
        match self.process_block_header(block) {
            Ok(state) => Ok(state.process_operations(&block.body)),
            Err(e) => Err(e),
        }
    }

    /// The state that `signed_block` leads to from this one, or the reason
    /// why the block is refused. This state is left as it is either way.
    ///
    /// `valid_signatures` is the caller's finding on the block's signatures.
    /// Refused, in this order: invalid signatures; a block whose slot is not
    /// ahead of this state; a header that does not fit (see
    /// [`State::process_block_header`]); a block whose declared state root is
    /// not the root of the state it leads to.
    pub fn state_transition(&self, signed_block: SignedBlock, valid_signatures: bool) -> (result:
        Result<State, TransitionError>)
        requires
            self@.wf(),
        ensures
            view_result(result) == self@.state_transition(signed_block@, valid_signatures),
            result matches Ok(post) ==> post@.wf() && post.slot == signed_block.message.slot
                && self.slot.0 < post.slot.0 && post.config == self.config,
    {
        proof {
            if self@.state_transition(signed_block@, valid_signatures) is Ok {
                lemma_transition_moves_ahead(self@, signed_block@, valid_signatures);
            }
        }
        if !valid_signatures {
            return Err(TransitionError::InvalidSignatures);
        }
        let block = signed_block.message;
        let advanced = match self.process_slots(block.slot) {
            Ok(state) => state,
            Err(e) => {
                return Err(e);
            },
        };
        let state = match advanced.process_block(&block) {
            Ok(state) => state,
            Err(e) => {
                return Err(e);
            },
        };
        let state_root = state.hash_tree_root();
        if block.state_root != state_root {
            proof {
                if block.state_root@ == state_root@ {
                    lemma_bytes32_ext(block.state_root, state_root);
                }
            }
            return Err(TransitionError::InvalidStateRoot);
        }
        Ok(state)
    }
}

/// A block that is applied brings the state to the block's slot, which lies
/// ahead, and leaves the configuration as it was.
pub proof fn lemma_transition_moves_ahead(
    s: StateView,
    signed_block: SignedBlockView,
    valid_signatures: bool,
)
    requires
        s.state_transition(signed_block, valid_signatures) is Ok,
    ensures
        valid_signatures,
        s.state_transition(signed_block, valid_signatures)->Ok_0.slot == signed_block.message.slot,
        s.slot.0 < signed_block.message.slot.0,
        s.state_transition(signed_block, valid_signatures)->Ok_0.config == s.config,
        s.state_transition(signed_block, valid_signatures)->Ok_0.latest_block_header.slot
            == signed_block.message.slot,
{
    lemma_advance_to(s, signed_block.message.slot.0);
}

/// Well-formed states lead to well-formed states: whatever block is
/// applied to a state of a chain, what comes out is a state of a chain.
pub proof fn lemma_transition_keeps_wf(
    s: StateView,
    signed_block: SignedBlockView,
    valid_signatures: bool,
)
    requires
        s.wf(),
        s.state_transition(signed_block, valid_signatures) is Ok,
    ensures
        s.state_transition(signed_block, valid_signatures)->Ok_0.wf(),
{
    let block = signed_block.message;
    lemma_advance_to(s, block.slot.0);
    let advanced = s.advance_to(block.slot.0);
    let applied = advanced.process_block_header(block)->Ok_0;
    assert(applied.wf());
    lemma_attestations_keep_wf(applied, block.body);
}

/// The transition fails for five causes and no other: signatures that the
/// caller found invalid, a block whose slot is not ahead, a header that
/// fails one of its four checks on the state advanced to the block's slot,
/// and a declared state root that is not the root of the state that comes
/// out. Each cause has its own reason, and the causes are looked at in this
/// order.
pub proof fn lemma_transition_causes(
    s: StateView,
    signed_block: SignedBlockView,
    valid_signatures: bool,
)
    ensures
        ({
            let block = signed_block.message;
            let result = s.state_transition(signed_block, valid_signatures);
            let advanced = s.advance_to(block.slot.0);
            let applied = advanced.process_block(block);
            &&& result == Err::<StateView, TransitionError>(TransitionError::InvalidSignatures)
                <==> !valid_signatures
            &&& result == Err::<StateView, TransitionError>(
                TransitionError::TargetSlotNotInFuture,
            ) <==> valid_signatures && block.slot.0 <= s.slot.0
            &&& valid_signatures && s.slot.0 < block.slot.0 ==> {
                &&& applied is Ok == advanced.header_fits(block)
                &&& !advanced.header_fits(block) ==> result == advanced.process_block_header(
                    block,
                ) && result is Err
                &&& advanced.header_fits(block) ==> (result is Ok <==> block.state_root@
                    == applied->Ok_0.tree_root())
                &&& advanced.header_fits(block) ==> (result == Err::<StateView, TransitionError>(
                    TransitionError::InvalidStateRoot,
                ) <==> block.state_root@ != applied->Ok_0.tree_root())
                &&& result matches Ok(post) ==> post == applied->Ok_0
            }
        }),
{
}

} // verus!
