// tests/state_process.rs
use containers::{
    block::{hash_tree_root, Block, BlockBody, BlockHeader, SignedBlock},
    checkpoint::Checkpoint,
    config::Config,
    error::TransitionError,
    slot::Slot,
    state::State,
    types::{Bytes32, Uint64, ValidatorIndex},
    vote::{SignedVote, Vote},
};

fn sample_config() -> Config {
    Config { num_validators: 10, genesis_time: 0 }
}

fn create_block(slot: u64, parent_header: &BlockHeader, votes: Option<Vec<SignedVote>>) -> SignedBlock {
    let body = BlockBody { attestations: votes.unwrap_or_default() };

    let block_message = Block {
        slot: Slot(slot),
        proposer_index: ValidatorIndex(slot % 10),
        parent_root: hash_tree_root(parent_header),
        state_root: Bytes32([0; 32]),
        body,
    };

    SignedBlock { message: block_message, signature: Bytes32([0; 32]) }
}

fn genesis_state() -> State {
    let config = sample_config();
    State::generate_genesis(Uint64(config.genesis_time), Uint64(config.num_validators))
}

#[test]
fn test_process_slot() {
    let genesis_state = genesis_state();

    assert_eq!(genesis_state.latest_block_header.state_root, Bytes32([0; 32]));

    let state_after_slot = genesis_state.process_slot();
    let expected_root = hash_tree_root(&genesis_state);

    assert_eq!(state_after_slot.latest_block_header.state_root, expected_root);

    let state_after_second_slot = state_after_slot.process_slot();
    assert_eq!(state_after_second_slot.latest_block_header.state_root, expected_root);
}

#[test]
fn state_process_test_process_slots() {
    let genesis_state = genesis_state();
    let target_slot = Slot(5);

    let new_state = genesis_state.process_slots(target_slot).unwrap();

    assert_eq!(new_state.slot, target_slot);
    assert_eq!(new_state.latest_block_header.state_root, hash_tree_root(&genesis_state));
}

#[test]
#[should_panic]
fn test_process_slots_backwards() {
    let genesis_state = genesis_state();
    let advanced_state = genesis_state.process_slots(Slot(5)).unwrap();

    let _ = advanced_state.process_slots(Slot(4)).unwrap(); // Should panic
}

#[test]
fn process_slots_backwards_is_refused() {
    let genesis_state = genesis_state();
    let advanced_state = genesis_state.process_slots(Slot(5)).unwrap();

    assert_eq!(
        advanced_state.process_slots(Slot(4)),
        Err(TransitionError::TargetSlotNotInFuture)
    );
    assert_eq!(
        advanced_state.process_slots(Slot(5)),
        Err(TransitionError::TargetSlotNotInFuture)
    );
    assert_eq!(advanced_state.process_slots(Slot(6)).unwrap().slot, Slot(6));
}

#[test]
fn test_process_block_header_valid() {
    let genesis_state = genesis_state();
    let state_at_slot_1 = genesis_state.process_slots(Slot(1)).unwrap();
    let genesis_header_root = hash_tree_root(&state_at_slot_1.latest_block_header);

    let block = create_block(1, &state_at_slot_1.latest_block_header, None).message;
    let new_state = state_at_slot_1.process_block_header(&block).unwrap();

    assert_eq!(new_state.latest_finalized.root, genesis_header_root);
    assert_eq!(new_state.latest_justified.root, genesis_header_root);
    assert_eq!(new_state.historical_block_hashes.as_slice(), &[genesis_header_root]);
    assert_eq!(new_state.justified_slots.as_slice(), &[true]);
    assert_eq!(new_state.latest_block_header.slot, Slot(1));
    assert_eq!(new_state.latest_block_header.state_root, Bytes32([0; 32]));
}

fn header_case(bad_slot: u64, bad_proposer: u64, bad_parent_root: Option<Bytes32>) -> (State, Result<State, TransitionError>) {
    let genesis_state = genesis_state();
    let state_at_slot_1 = genesis_state.process_slots(Slot(1)).unwrap();
    let parent_header = &state_at_slot_1.latest_block_header;
    let parent_root = hash_tree_root(parent_header);

    let block = Block {
        slot: Slot(bad_slot),
        proposer_index: ValidatorIndex(bad_proposer),
        parent_root: bad_parent_root.unwrap_or(parent_root),
        state_root: Bytes32([0; 32]),
        body: BlockBody { attestations: Vec::new() },
    };

    let result = state_at_slot_1.process_block_header(&block);
    (state_at_slot_1, result)
}

#[test]
fn test_process_block_header_invalid_slot() {
    let (pre, result) = header_case(2, 1, None);
    assert_eq!(result, Err(TransitionError::SlotMismatch));
    assert_eq!(pre, genesis_state().process_slots(Slot(1)).unwrap());
}

#[test]
fn test_process_block_header_invalid_proposer() {
    let (pre, result) = header_case(1, 2, None);
    assert_eq!(result, Err(TransitionError::IncorrectProposer));
    assert_eq!(pre, genesis_state().process_slots(Slot(1)).unwrap());
}

#[test]
fn test_process_block_header_invalid_parent_root() {
    let (pre, result) = header_case(1, 1, Some(Bytes32([0xde; 32])));
    assert_eq!(result, Err(TransitionError::ParentRootMismatch));
    assert_eq!(pre, genesis_state().process_slots(Slot(1)).unwrap());
}

#[test]
fn test_process_attestations_justification_and_finalization() {
    let mut state = genesis_state();

    // Process slot 1 and block
    let state_at_slot_1 = state.process_slots(Slot(1)).unwrap();
    let block1 = create_block(1, &state_at_slot_1.latest_block_header, None);
    state = state_at_slot_1.process_block(&block1.message).unwrap();

    // Process slot 4 and block
    let state_at_slot_4 = state.process_slots(Slot(4)).unwrap();
    let block4 = create_block(4, &state_at_slot_4.latest_block_header, None);
    state = state_at_slot_4.process_block(&block4.message).unwrap();

    // Advance to slot 5
    state = state.process_slots(Slot(5)).unwrap();

    let genesis_checkpoint = Checkpoint { root: state.historical_block_hashes[0], slot: Slot(0) };

    let checkpoint4 = Checkpoint { root: hash_tree_root(&state.latest_block_header), slot: Slot(4) };

    let votes_for_4: Vec<SignedVote> = (0..7)
        .map(|i| SignedVote {
            data: Vote {
                validator_id: Uint64(i),
                slot: Slot(4),
                head: checkpoint4.clone(),
                target: checkpoint4.clone(),
                source: genesis_checkpoint.clone(),
            },
            signature: Bytes32([0; 32]),
        })
        .collect();

    let mut votes_list: Vec<SignedVote> = Vec::new();
    for v in votes_for_4 {
        votes_list.push(v);
    }

    let new_state = state.process_attestations(&votes_list);

    assert_eq!(new_state.latest_justified, checkpoint4);
    assert!(new_state.justified_slots[4]);
    assert_eq!(new_state.latest_finalized, genesis_checkpoint);
    assert!(!new_state.get_justifications().contains_key(&checkpoint4.root));
}
