//! Advancing a state through slots without blocks.
use crate::block::BlockHeader;
use crate::error::TransitionError;
use crate::slot::Slot;
use crate::ssz::SszHash;
use crate::state::{view_result, State, StateView};
use crate::types::{digest_of, lemma_bytes32_ext, lemma_digest_of, zero_bytes};
use vstd::prelude::*;

verus! {

impl StateView {
    /// One slot's bookkeeping: a header that still waits for its state root
    /// gets the root of this state.
    pub open spec fn process_slot(self) -> StateView {
        if self.latest_block_header.state_root@ == zero_bytes() {
            StateView {
                latest_block_header: BlockHeader {
                    state_root: digest_of(self.tree_root()),
                    ..self.latest_block_header
                },
                ..self
            }
        } else {
            self
        }
    }

    /// The state moved to the next slot.
    pub open spec fn next_slot(self) -> StateView {
        StateView { slot: Slot((self.slot.0 + 1) as u64), ..self }
    }

    /// The state advanced slot by slot until it stands at `target`.
    pub open spec fn advance_to(self, target: u64) -> StateView
        decreases target - self.slot.0,
    {
        if self.slot.0 >= target {
            self
        } else {
            self.process_slot().next_slot().advance_to(target)
        }
    }

    /// Advancing to a slot that is not ahead is refused.
    pub open spec fn process_slots(self, target: Slot) -> Result<StateView, TransitionError> {
        if self.slot.0 < target.0 {
            Ok(self.advance_to(target.0))
        } else {
            Err(TransitionError::TargetSlotNotInFuture)
        }
    }
}

impl State {
    /// Closes the latest header: where it still waits for its state root, it
    /// gets the root of this state as it stands.
    fn backfill_state_root(&mut self)
        ensures
            final(self)@ == old(self)@.process_slot(),
            old(self).latest_block_header.state_root@ == zero_bytes()
                ==> final(self).latest_block_header.state_root@ == old(self)@.tree_root(),
    {
        if self.latest_block_header.state_root.is_zero() {
            let previous_state_root = self.hash_tree_root();
            proof {
                lemma_digest_of(previous_state_root);
            }
            self.latest_block_header.state_root = previous_state_root;
        }
    }

    /// One slot's bookkeeping. A header that was made before its own state
    /// root was known has the zero digest for it; it gets the root of this
    /// state here. A header with a root is left alone, so a second call
    /// changes nothing more.
    pub fn process_slot(&self) -> (post: State)
        ensures
            post@ == self@.process_slot(),
            self.latest_block_header.state_root@ != zero_bytes() ==> post@ == self@,
            self.latest_block_header.state_root@ == zero_bytes()
                ==> post.latest_block_header.state_root@ == self@.tree_root(),
            self@.wf() ==> post@.wf(),
    {
        let mut post = self.clone();
        post.backfill_state_root();
        post
    }

    /// Advances the state to `target_slot`, slot by slot, with the
    /// bookkeeping of each. The target must lie ahead.
    pub fn process_slots(&self, target_slot: Slot) -> (result: Result<State, TransitionError>)
        ensures
            result is Ok == (self.slot.0 < target_slot.0),
            result matches Err(e) ==> e == TransitionError::TargetSlotNotInFuture,
            view_result(result) == self@.process_slots(target_slot),
            result matches Ok(post) ==> {
                &&& post.slot == target_slot
                &&& post@ == (StateView {
                    slot: target_slot,
                    latest_block_header: BlockHeader {
                        state_root: post.latest_block_header.state_root,
                        ..self.latest_block_header
                    },
                    ..self@
                })
                &&& self.latest_block_header.state_root@ != zero_bytes()
                    ==> post.latest_block_header.state_root
                    == self.latest_block_header.state_root
                &&& self.latest_block_header.state_root@ == zero_bytes() && self@.tree_root()
                    != zero_bytes() ==> post.latest_block_header.state_root@
                    == self@.tree_root()
                &&& self@.wf() ==> post@.wf()
            },
    {
        if self.slot.0 >= target_slot.0 {
            return Err(TransitionError::TargetSlotNotInFuture);
        }
        proof {
            lemma_advance_to(self@, target_slot.0);
            if self.latest_block_header.state_root@ != zero_bytes() {
                lemma_advance_filled(self@, target_slot.0);
            }
        }
        // the bookkeeping of the first slot is the one that can fill the root
        let mut state = self.process_slot();
        proof {
            lemma_process_slot_idempotent(self@);
            if self.latest_block_header.state_root@ == zero_bytes() && self@.tree_root()
                != zero_bytes() {
                lemma_advance_pending(self@, target_slot.0);
            }
        }
        while state.slot.0 < target_slot.0
            invariant
                state.slot.0 <= target_slot.0,
                state@.advance_to(target_slot.0) == self@.advance_to(target_slot.0),
                self@.wf() ==> state@.wf(),
            decreases target_slot.0 - state.slot.0,
        {
            state.backfill_state_root();
            state.slot = Slot(state.slot.0 + 1);
        }
        Ok(state)
    }
}

/// A header that has its state root is left alone.
pub proof fn lemma_process_slot_keeps_filled(s: StateView)
    requires
        s.latest_block_header.state_root@ != zero_bytes(),
    ensures
        s.process_slot() == s,
{
}

/// The bookkeeping of a slot is done once: doing it again, with nothing in
/// between, changes nothing more.
pub proof fn lemma_process_slot_idempotent(s: StateView)
    ensures
        s.process_slot().process_slot() == s.process_slot(),
{
    let once = s.process_slot();
    if s.latest_block_header.state_root@ == zero_bytes() && once.latest_block_header.state_root@
        == zero_bytes() {
        // the root that was filled in is the zero digest, as the one before
        lemma_bytes32_ext(
            once.latest_block_header.state_root,
            s.latest_block_header.state_root,
        );
    }
}

/// Advancing a state whose latest header has its state root changes the
/// slot and nothing else.
pub proof fn lemma_advance_filled(s: StateView, target: u64)
    requires
        s.slot.0 <= target,
        s.latest_block_header.state_root@ != zero_bytes(),
    ensures
        s.advance_to(target) == (StateView { slot: Slot(target), ..s }),
    decreases target - s.slot.0,
{
    if s.slot.0 < target {
        lemma_advance_filled(s.process_slot().next_slot(), target);
    }
}

/// Advancing a state whose latest header waits for its state root gives the
/// header the root of the state as it stood, at the first slot, and from
/// then on the slot alone changes (unless that root is the zero digest).
pub proof fn lemma_advance_pending(s: StateView, target: u64)
    requires
        s.slot.0 < target,
        s.latest_block_header.state_root@ == zero_bytes(),
        s.process_slot().latest_block_header.state_root@ != zero_bytes(),
    ensures
        s.advance_to(target) == (StateView { slot: Slot(target), ..s.process_slot() }),
{
    lemma_advance_filled(s.process_slot().next_slot(), target);
}

/// Advancing a state to a slot that is not behind it brings it to that
/// slot, and changes nothing but the slot and the latest header's state root.
pub proof fn lemma_advance_to(s: StateView, target: u64)
    requires
        s.slot.0 <= target,
    ensures
        s.advance_to(target).slot.0 == target,
        s.advance_to(target) == (StateView {
            slot: Slot(target),
            latest_block_header: BlockHeader {
                state_root: s.advance_to(target).latest_block_header.state_root,
                ..s.latest_block_header
            },
            ..s
        }),
        s.wf() ==> s.advance_to(target).wf(),
    decreases target - s.slot.0,
{
    if s.slot.0 < target {
        lemma_advance_to(s.process_slot().next_slot(), target);
    }
}

} // verus!
