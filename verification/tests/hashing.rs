// Hash tree roots, held against SHA-256 applied by hand and against the
// lists of ssz_rs.
use containers::block::{hash_tree_root, Block, BlockBody, BlockHeader, SignedBlock};
use containers::checkpoint::Checkpoint;
use containers::config::Config;
use containers::slot::Slot;
use containers::ssz::compute_hash_tree_root;
use containers::state::State;
use containers::types::{Bytes32, Uint64, ValidatorIndex};
use containers::vote::{SignedVote, Vote};
use sha2::{Digest, Sha256};
use ssz_rs::{List, Merkleized, Node};

fn hash_pair(left: &[u8; 32], right: &[u8; 32]) -> [u8; 32] {
    let mut hasher = Sha256::new();
    hasher.update(left);
    hasher.update(right);
    let digest = hasher.finalize();
    let mut out = [0u8; 32];
    out.copy_from_slice(&digest);
    out
}

// The root of a full binary tree over `leaves`, padded with zero leaves to a
// power of two.
fn tree(leaves: &[[u8; 32]]) -> [u8; 32] {
    let mut width = 1;
    while width < leaves.len() {
        width *= 2;
    }
    let mut layer: Vec<[u8; 32]> = leaves.to_vec();
    layer.resize(width, [0u8; 32]);
    while layer.len() > 1 {
        let mut next = Vec::new();
        for pair in layer.chunks(2) {
            next.push(hash_pair(&pair[0], &pair[1]));
        }
        layer = next;
    }
    layer[0]
}

fn leaf(x: u64) -> [u8; 32] {
    let mut out = [0u8; 32];
    out[..8].copy_from_slice(&x.to_le_bytes());
    out
}

fn node_bytes(node: Node) -> [u8; 32] {
    let mut out = [0u8; 32];
    out.copy_from_slice(node.as_ref());
    out
}

fn digest_list_root(digests: &[Bytes32]) -> [u8; 32] {
    let nodes: Vec<Node> = digests.iter().map(|d| Node::try_from(&d.0[..]).unwrap()).collect();
    let mut list: List<Node, 8192> = List::try_from(nodes).ok().unwrap();
    node_bytes(list.hash_tree_root().unwrap())
}

fn checkpoint_root(c: &Checkpoint) -> [u8; 32] {
    tree(&[c.root.0, leaf(c.slot.0)])
}

fn header_root(h: &BlockHeader) -> [u8; 32] {
    tree(&[leaf(h.slot.0), leaf(h.proposer_index.0), h.parent_root.0, h.state_root.0, h.body_root.0])
}

fn vote_root(v: &Vote) -> [u8; 32] {
    tree(&[
        leaf(v.validator_id.0),
        leaf(v.slot.0),
        checkpoint_root(&v.head),
        checkpoint_root(&v.target),
        checkpoint_root(&v.source),
    ])
}

fn sample_checkpoint(fill: u8, slot: u64) -> Checkpoint {
    Checkpoint { root: Bytes32([fill; 32]), slot: Slot(slot) }
}

fn sample_vote(validator: u64) -> SignedVote {
    SignedVote {
        data: Vote {
            validator_id: Uint64(validator),
            slot: Slot(9),
            head: sample_checkpoint(3, 9),
            target: sample_checkpoint(2, 8),
            source: sample_checkpoint(1, 4),
        },
        signature: Bytes32([0xab; 32]),
    }
}

#[test]
fn zero_checkpoint_root_is_the_hash_of_two_zero_leaves() {
    let root = hash_tree_root(&Checkpoint { root: Bytes32([0; 32]), slot: Slot(0) });
    // SHA-256 of 64 zero bytes
    let expected: [u8; 32] = [
        0xf5, 0xa5, 0xfd, 0x42, 0xd1, 0x6a, 0x20, 0x30, 0x27, 0x98, 0xef, 0x6e, 0xd3, 0x09, 0x97,
        0x9b, 0x43, 0x00, 0x3d, 0x23, 0x20, 0xd9, 0xf0, 0xe8, 0xea, 0x98, 0x31, 0xa9, 0x27, 0x59,
        0xfb, 0x4b,
    ];
    assert_eq!(root, Bytes32(expected));
}

#[test]
fn checkpoint_root_hashes_root_then_slot() {
    let c = sample_checkpoint(0x11, 0x0102030405060708);
    assert_eq!(hash_tree_root(&c).0, checkpoint_root(&c));
    assert_ne!(hash_tree_root(&c).0, tree(&[leaf(c.slot.0), c.root.0]));
}

#[test]
fn config_root_hashes_validators_then_time() {
    let config = Config { num_validators: 10, genesis_time: 1_700_000_000 };
    assert_eq!(hash_tree_root(&config).0, tree(&[leaf(10), leaf(1_700_000_000)]));
    assert_eq!(compute_hash_tree_root(&config), hash_tree_root(&config));
}

#[test]
fn header_root_is_a_tree_of_eight_leaves() {
    let header = BlockHeader {
        slot: Slot(7),
        proposer_index: ValidatorIndex(3),
        parent_root: Bytes32([1; 32]),
        state_root: Bytes32([2; 32]),
        body_root: Bytes32([3; 32]),
    };
    assert_eq!(hash_tree_root(&header).0, header_root(&header));
}

#[test]
fn vote_roots_nest_the_checkpoints() {
    let signed = sample_vote(5);
    assert_eq!(hash_tree_root(&signed.data).0, vote_root(&signed.data));
    assert_eq!(hash_tree_root(&signed).0, tree(&[vote_root(&signed.data), signed.signature.0]));
}

#[test]
fn body_root_is_the_root_of_its_list() {
    let votes = vec![sample_vote(0), sample_vote(1), sample_vote(2)];
    let roots: Vec<Node> = votes
        .iter()
        .map(|v| Node::try_from(&hash_tree_root(v).0[..]).unwrap())
        .collect();
    let mut list: List<Node, 1024> = List::try_from(roots).ok().unwrap();
    let expected = node_bytes(list.hash_tree_root().unwrap());

    let body = BlockBody { attestations: votes };
    assert_eq!(hash_tree_root(&body).0, expected);

    let mut empty: List<Node, 1024> = List::default();
    let empty_root = node_bytes(empty.hash_tree_root().unwrap());
    assert_eq!(hash_tree_root(&BlockBody { attestations: Vec::new() }).0, empty_root);
    assert_ne!(empty_root, expected);
}

#[test]
fn block_roots_nest_the_body() {
    let body = BlockBody { attestations: vec![sample_vote(4)] };
    let body_root = hash_tree_root(&body).0;
    let block = Block {
        slot: Slot(12),
        proposer_index: ValidatorIndex(2),
        parent_root: Bytes32([7; 32]),
        state_root: Bytes32([8; 32]),
        body,
    };
    let expected = tree(&[leaf(12), leaf(2), [7; 32], [8; 32], body_root]);
    assert_eq!(hash_tree_root(&block).0, expected);

    let signed = SignedBlock { message: block, signature: Bytes32([9; 32]) };
    assert_eq!(hash_tree_root(&signed).0, tree(&[expected, [9; 32]]));
}

#[test]
fn a_body_beyond_its_capacity_has_the_zero_root() {
    let body = BlockBody { attestations: vec![sample_vote(0); 1025] };
    assert_eq!(hash_tree_root(&body), Bytes32([0; 32]));
    let block = Block {
        slot: Slot(1),
        proposer_index: ValidatorIndex(1),
        parent_root: Bytes32([0; 32]),
        state_root: Bytes32([0; 32]),
        body,
    };
    assert_eq!(hash_tree_root(&block), Bytes32([0; 32]));
    let signed = SignedBlock { message: block, signature: Bytes32([0; 32]) };
    assert_eq!(hash_tree_root(&signed), Bytes32([0; 32]));

    let full = BlockBody { attestations: vec![sample_vote(0); 1024] };
    assert_ne!(hash_tree_root(&full), Bytes32([0; 32]));
}

fn expected_state_root(state: &State) -> [u8; 32] {
    let mut slots: List<bool, 8192> = List::try_from(state.justified_slots.clone()).ok().unwrap();
    let mut validators: List<bool, 536870912> =
        List::try_from(state.justifications_validators.clone()).ok().unwrap();
    tree(&[
        tree(&[leaf(state.config.num_validators), leaf(state.config.genesis_time)]),
        leaf(state.slot.0),
        header_root(&state.latest_block_header),
        checkpoint_root(&state.latest_justified),
        checkpoint_root(&state.latest_finalized),
        digest_list_root(&state.historical_block_hashes),
        node_bytes(slots.hash_tree_root().unwrap()),
        digest_list_root(&state.justifications_roots),
        node_bytes(validators.hash_tree_root().unwrap()),
    ])
}

#[test]
fn genesis_state_root_is_a_tree_of_sixteen_leaves() {
    let state = State::generate_genesis(Uint64(1234), Uint64(10));
    assert_eq!(hash_tree_root(&state).0, expected_state_root(&state));
}

#[test]
fn state_root_covers_every_list() {
    let mut state = State::generate_genesis(Uint64(0), Uint64(3));
    state.slot = Slot(4);
    state.historical_block_hashes = vec![Bytes32([1; 32]), Bytes32([0; 32]), Bytes32([2; 32])];
    state.justified_slots = vec![true, false, true, false, true];
    state.justifications_roots = vec![Bytes32([5; 32]), Bytes32([6; 32])];
    state.justifications_validators = vec![true, false, false, false, true, true];
    assert!(state.is_well_formed());
    let root = hash_tree_root(&state).0;
    assert_eq!(root, expected_state_root(&state));

    let mut other = state.clone();
    other.justified_slots[1] = true;
    assert_ne!(hash_tree_root(&other).0, root);
    let mut other = state.clone();
    other.justifications_validators[3] = true;
    assert_ne!(hash_tree_root(&other).0, root);
    let mut other = state.clone();
    other.historical_block_hashes.push(Bytes32([0; 32]));
    assert_ne!(hash_tree_root(&other).0, root);
}

#[test]
fn state_root_pads_flags_to_whole_leaves() {
    let mut state = State::generate_genesis(Uint64(0), Uint64(40));
    state.justified_slots = vec![true; 33];
    state.justifications_roots = vec![Bytes32([5; 32])];
    state.justifications_validators = vec![true; 40];
    assert!(state.is_well_formed());
    assert_eq!(hash_tree_root(&state).0, expected_state_root(&state));
}

#[test]
fn a_state_beyond_its_capacity_has_the_zero_root() {
    let mut state = State::generate_genesis(Uint64(0), Uint64(3));
    state.historical_block_hashes = vec![Bytes32([1; 32]); 8193];
    assert!(!state.is_well_formed());
    assert_eq!(hash_tree_root(&state), Bytes32([0; 32]));
    state.historical_block_hashes.pop();
    assert!(state.is_well_formed());
    assert_ne!(hash_tree_root(&state), Bytes32([0; 32]));
}
