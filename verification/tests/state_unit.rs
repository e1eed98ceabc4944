use containers::block::{hash_tree_root, Block, BlockBody};
use containers::slot::Slot;
use containers::state::State;
use containers::types::{Bytes32, Uint64, ValidatorIndex};

#[test]
fn proposer_round_robin() {
    let st = State::generate_genesis(Uint64(0), Uint64(4));
    assert!(State { config: st.config.clone(), ..st.clone() }.is_proposer(ValidatorIndex(0)));
}

#[test]
fn slot_justifiability_rules() {
    assert!(Slot(1).is_justifiable_after(Slot(0)));
    assert!(Slot(9).is_justifiable_after(Slot(0))); // perfect square
    assert!(Slot(6).is_justifiable_after(Slot(0))); // pronic (2*3)
}

#[test]
fn state_test_hash_tree_root() {
    let body = BlockBody { attestations: Vec::new() };
    let block = Block {
        slot: Slot(1),
        proposer_index: ValidatorIndex(0),
        parent_root: Bytes32([0; 32]),
        state_root: Bytes32([0; 32]),
        body,
    };

    let root = hash_tree_root(&block);
    assert_ne!(root, Bytes32([0; 32])); // Should compute actual hash
}

#[test]
fn state_test_process_slots() {
    let genesis_state = State::generate_genesis(Uint64(0), Uint64(10));
    let target_slot = Slot(5);

    let new_state = genesis_state.process_slots(target_slot).unwrap();

    assert_eq!(new_state.slot, target_slot);
    assert_eq!(new_state.latest_block_header.state_root, hash_tree_root(&genesis_state));
}
