// Whole transitions, and the reasons for which a block is refused.
use containers::block::{hash_tree_root, Block, BlockBody, BlockHeader, SignedBlock};
use containers::checkpoint::Checkpoint;
use containers::error::TransitionError;
use containers::slot::Slot;
use containers::state::State;
use containers::types::{Bytes32, Uint64, ValidatorIndex};
use containers::vote::{SignedVote, Vote};

fn genesis(num_validators: u64) -> State {
    State::generate_genesis(Uint64(0), Uint64(num_validators))
}

// A block for `slot` on top of `state`, which has been advanced to `slot`.
fn block_on(state: &State, slot: u64, votes: Vec<SignedVote>) -> Block {
    Block {
        slot: Slot(slot),
        proposer_index: ValidatorIndex(slot % state.config.num_validators),
        parent_root: hash_tree_root(&state.latest_block_header),
        state_root: Bytes32([0; 32]),
        body: BlockBody { attestations: votes },
    }
}

// A signed block for `slot` that `pre` accepts: its state root is filled in.
fn valid_block(pre: &State, slot: u64, votes: Vec<SignedVote>) -> SignedBlock {
    let advanced = pre.process_slots(Slot(slot)).unwrap();
    let mut block = block_on(&advanced, slot, votes);
    let post = advanced.process_block(&block).unwrap();
    block.state_root = hash_tree_root(&post);
    SignedBlock { message: block, signature: Bytes32([0; 32]) }
}

fn vote(validator: u64, source: &Checkpoint, target: &Checkpoint) -> SignedVote {
    SignedVote {
        data: Vote {
            validator_id: Uint64(validator),
            slot: target.slot,
            head: target.clone(),
            target: target.clone(),
            source: source.clone(),
        },
        signature: Bytes32([0; 32]),
    }
}

#[test]
fn a_valid_block_is_applied() {
    let pre = genesis(10);
    let signed = valid_block(&pre, 1, Vec::new());
    let post = pre.state_transition(signed.clone(), true).unwrap();

    assert_eq!(post.slot, Slot(1));
    assert_eq!(post.config, pre.config);
    assert_eq!(post.latest_block_header.slot, Slot(1));
    assert_eq!(post.latest_block_header.proposer_index, ValidatorIndex(1));
    assert_eq!(post.latest_block_header.parent_root, signed.message.parent_root);
    assert_eq!(post.latest_block_header.state_root, Bytes32([0; 32]));
    assert_eq!(post.latest_block_header.body_root, hash_tree_root(&signed.message.body));
    assert_eq!(hash_tree_root(&post), signed.message.state_root);
    assert!(post.is_well_formed());
    // the state that was there is as it was
    assert_eq!(pre, genesis(10));
}

#[test]
fn a_chain_of_blocks_with_skipped_slots() {
    let mut state = genesis(10);
    for slot in [1u64, 2, 5, 6] {
        let signed = valid_block(&state, slot, Vec::new());
        state = state.state_transition(signed, true).unwrap();
        assert_eq!(state.slot, Slot(slot));
        assert_eq!(state.historical_block_hashes.len() as u64, slot);
        assert_eq!(state.justified_slots.len() as u64, slot);
    }
    // slots 3 and 4 were skipped
    assert_eq!(state.historical_block_hashes[3], Bytes32([0; 32]));
    assert_eq!(state.historical_block_hashes[4], Bytes32([0; 32]));
    assert_ne!(state.historical_block_hashes[2], Bytes32([0; 32]));
    assert_ne!(state.historical_block_hashes[5], Bytes32([0; 32]));
    assert_eq!(state.justified_slots, vec![true, false, false, false, false, false]);
    // the checkpoints were given the root of the genesis header, once
    assert_eq!(state.latest_justified.root, state.historical_block_hashes[0]);
    assert_eq!(state.latest_finalized.root, state.historical_block_hashes[0]);
    assert_eq!(state.latest_justified.slot, Slot(0));
}

#[test]
fn invalid_signatures_are_refused_first() {
    let pre = genesis(10);
    let signed = valid_block(&pre, 1, Vec::new());
    assert_eq!(pre.state_transition(signed, false), Err(TransitionError::InvalidSignatures));
    let mut late = valid_block(&pre, 1, Vec::new());
    late.message.slot = Slot(0);
    assert_eq!(pre.state_transition(late, false), Err(TransitionError::InvalidSignatures));
}

#[test]
fn a_block_that_is_not_ahead_is_refused() {
    let pre = genesis(10);
    let first = valid_block(&pre, 1, Vec::new());
    let state = pre.state_transition(first.clone(), true).unwrap();
    assert_eq!(state.state_transition(first, true), Err(TransitionError::TargetSlotNotInFuture));
    let mut at_genesis = valid_block(&pre, 1, Vec::new());
    at_genesis.message.slot = Slot(0);
    assert_eq!(pre.state_transition(at_genesis, true), Err(TransitionError::TargetSlotNotInFuture));
}

#[test]
fn a_wrong_state_root_is_refused() {
    let pre = genesis(10);
    let mut signed = valid_block(&pre, 1, Vec::new());
    signed.message.state_root = Bytes32([1; 32]);
    assert_eq!(pre.state_transition(signed, true), Err(TransitionError::InvalidStateRoot));
}

#[test]
fn a_wrong_proposer_or_parent_is_refused_by_the_transition() {
    let pre = genesis(10);
    let mut signed = valid_block(&pre, 1, Vec::new());
    signed.message.proposer_index = ValidatorIndex(2);
    assert_eq!(pre.state_transition(signed, true), Err(TransitionError::IncorrectProposer));
    let mut signed = valid_block(&pre, 1, Vec::new());
    signed.message.parent_root = Bytes32([0xde; 32]);
    assert_eq!(pre.state_transition(signed, true), Err(TransitionError::ParentRootMismatch));
    // the proposer is looked at before the parent
    let mut signed = valid_block(&pre, 1, Vec::new());
    signed.message.proposer_index = ValidatorIndex(2);
    signed.message.parent_root = Bytes32([0xde; 32]);
    assert_eq!(pre.state_transition(signed, true), Err(TransitionError::IncorrectProposer));
}

#[test]
fn a_block_at_the_slot_of_the_latest_header_is_refused() {
    let pre = genesis(10);
    let first = valid_block(&pre, 1, Vec::new());
    let state = pre.state_transition(first, true).unwrap();
    // the state stands at slot 1, and so does its latest header
    let again = block_on(&state, 1, Vec::new());
    assert_eq!(
        state.process_block_header(&again),
        Err(TransitionError::BlockOlderThanLatestHeader)
    );
    // a block for another slot is a mismatch before anything else
    let other = block_on(&state, 2, Vec::new());
    assert_eq!(state.process_block_header(&other), Err(TransitionError::SlotMismatch));
}

#[test]
fn a_registry_without_validators_has_no_proposer() {
    let pre = genesis(0);
    let advanced = pre.process_slots(Slot(1)).unwrap();
    let block = Block {
        slot: Slot(1),
        proposer_index: ValidatorIndex(0),
        parent_root: hash_tree_root(&advanced.latest_block_header),
        state_root: Bytes32([0; 32]),
        body: BlockBody { attestations: Vec::new() },
    };
    assert_eq!(advanced.process_block_header(&block), Err(TransitionError::IncorrectProposer));
}

#[test]
fn the_history_has_room_for_8192_slots() {
    let pre = genesis(10);
    let at_limit = pre.process_slots(Slot(8192)).unwrap();
    let block = block_on(&at_limit, 8192, Vec::new());
    let post = at_limit.process_block_header(&block).unwrap();
    assert_eq!(post.historical_block_hashes.len(), 8192);
    assert_eq!(post.justified_slots.len(), 8192);
    assert!(post.justified_slots[0]);
    assert!(!post.justified_slots[8191]);
    assert!(post.is_well_formed());
}

#[test]
fn a_block_beyond_the_history_is_applied_and_the_lists_are_dropped() {
    let pre = genesis(10);
    let beyond = pre.process_slots(Slot(8193)).unwrap();
    let block = block_on(&beyond, 8193, Vec::new());
    let post = beyond.process_block_header(&block).unwrap();
    // the four checks passed: the header is the block's, the checkpoints
    // have their root, and the rest is as it was
    assert_eq!(post.latest_block_header, header_of(&block));
    assert_eq!(post.latest_justified.root, block.parent_root);
    assert_eq!(post.latest_finalized.root, block.parent_root);
    assert_eq!(post.latest_justified.slot, Slot(0));
    assert_eq!(post.config, beyond.config);
    assert_eq!(post.slot, Slot(8193));
    // 8193 roots and flags are more than a state keeps: none is kept
    assert!(post.historical_block_hashes.is_empty());
    assert!(post.justified_slots.is_empty());
    assert!(post.is_well_formed());

    // the same on top of a full history
    let at_limit = pre.process_slots(Slot(8192)).unwrap();
    let full = at_limit.process_block_header(&block_on(&at_limit, 8192, Vec::new())).unwrap();
    let next = full.process_slots(Slot(8193)).unwrap();
    let block = block_on(&next, 8193, Vec::new());
    let post = next.process_block_header(&block).unwrap();
    assert_eq!(post.latest_block_header, header_of(&block));
    assert_eq!(post.latest_justified, next.latest_justified);
    assert!(post.historical_block_hashes.is_empty());
    assert!(post.justified_slots.is_empty());

    // and through the whole transition
    let signed = valid_block(&full, 8193, Vec::new());
    let post = full.state_transition(signed, true).unwrap();
    assert_eq!(post.slot, Slot(8193));
    assert!(post.historical_block_hashes.is_empty());
}

#[test]
fn a_list_is_dropped_on_its_own() {
    // the flags are one longer than the history, as after a vote for the
    // latest header: one more slot fills the history and overfills the flags
    let pre = genesis(10);
    let mut state = pre.process_slots(Slot(8191)).unwrap();
    state = state.process_block_header(&block_on(&state, 8191, Vec::new())).unwrap();
    assert_eq!(state.historical_block_hashes.len(), 8191);
    state.justified_slots.push(false);
    let next = state.process_slots(Slot(8192)).unwrap();
    let post = next.process_block_header(&block_on(&next, 8192, Vec::new())).unwrap();
    assert_eq!(post.historical_block_hashes.len(), 8192);
    assert!(post.justified_slots.is_empty());
}

#[test]
fn each_error_has_its_words() {
    assert_eq!(TransitionError::InvalidSignatures.message(), "Block signatures must be valid");
    assert_eq!(TransitionError::TargetSlotNotInFuture.message(), "Target slot must be in the future");
    assert_eq!(TransitionError::SlotMismatch.message(), "Block slot mismatch");
    assert_eq!(
        TransitionError::BlockOlderThanLatestHeader.message(),
        "Block is older than latest header"
    );
    assert_eq!(TransitionError::IncorrectProposer.message(), "Incorrect block proposer");
    assert_eq!(TransitionError::ParentRootMismatch.message(), "Block parent root mismatch");
    assert_eq!(TransitionError::InvalidStateRoot.message(), "Invalid block state root");
}

#[test]
fn process_slot_fills_the_state_root_once() {
    let pre = genesis(10);
    let filled = pre.process_slot();
    assert_eq!(filled.latest_block_header.state_root, hash_tree_root(&pre));
    assert_eq!(filled.process_slot(), filled);
    assert_eq!(filled.process_slot().process_slot(), filled);
    // nothing else has changed
    let mut expected = pre.clone();
    expected.latest_block_header.state_root = hash_tree_root(&pre);
    assert_eq!(filled, expected);
}

#[test]
fn process_slots_changes_the_slot_and_the_pending_root_only() {
    let pre = genesis(10);
    let advanced = pre.process_slots(Slot(3)).unwrap();
    let mut expected = pre.clone();
    expected.slot = Slot(3);
    expected.latest_block_header.state_root = hash_tree_root(&pre);
    assert_eq!(advanced, expected);
}

#[test]
fn votes_in_a_block_justify_and_finalize() {
    let mut state = genesis(10);
    for slot in [1u64, 4] {
        let signed = valid_block(&state, slot, Vec::new());
        state = state.state_transition(signed, true).unwrap();
    }
    let at_5 = state.process_slots(Slot(5)).unwrap();
    let genesis_checkpoint = Checkpoint { root: at_5.historical_block_hashes[0], slot: Slot(0) };
    let checkpoint4 =
        Checkpoint { root: hash_tree_root(&at_5.latest_block_header), slot: Slot(4) };
    let votes: Vec<SignedVote> =
        (0..7).map(|i| vote(i, &genesis_checkpoint, &checkpoint4)).collect();

    // block 5 carries the votes for block 4
    let signed = valid_block(&state, 5, votes);
    state = state.state_transition(signed, true).unwrap();
    assert_eq!(state.latest_justified, checkpoint4);
    assert_eq!(state.latest_finalized, genesis_checkpoint);
    assert_eq!(state.justified_slots, vec![true, false, false, false, true]);
    assert!(state.justifications_roots.is_empty());
    assert!(state.justifications_validators.is_empty());

    // block 6 carries votes from block 4 to block 5: nothing lies between
    // the two, and block 4 is finalized
    let at_6 = state.process_slots(Slot(6)).unwrap();
    let checkpoint5 =
        Checkpoint { root: hash_tree_root(&at_6.latest_block_header), slot: Slot(5) };
    assert_eq!(checkpoint4.root, at_6.historical_block_hashes[4]);
    let votes: Vec<SignedVote> = (3..10).map(|i| vote(i, &checkpoint4, &checkpoint5)).collect();
    let signed = valid_block(&state, 6, votes);
    state = state.state_transition(signed, true).unwrap();
    assert_eq!(state.latest_justified, checkpoint5);
    assert_eq!(state.latest_finalized, checkpoint4);
    assert_eq!(state.justified_slots, vec![true, false, false, false, true, true]);
    assert!(state.is_well_formed());
}

fn header_of(block: &Block) -> BlockHeader {
    BlockHeader {
        slot: block.slot,
        proposer_index: block.proposer_index,
        parent_root: block.parent_root,
        state_root: Bytes32([0; 32]),
        body_root: hash_tree_root(&block.body),
    }
}

#[test]
fn the_new_header_is_made_of_the_block() {
    let pre = genesis(10);
    let advanced = pre.process_slots(Slot(3)).unwrap();
    let block = block_on(&advanced, 3, Vec::new());
    let post = advanced.process_block_header(&block).unwrap();
    assert_eq!(post.latest_block_header, header_of(&block));
    assert_eq!(post.justified_slots, vec![true, false, false]);
    assert_eq!(
        post.historical_block_hashes,
        vec![block.parent_root, Bytes32([0; 32]), Bytes32([0; 32])]
    );
}
