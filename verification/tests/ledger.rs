// The mapping of votes and its flattened form in the state.
use containers::justifications::Justifications;
use containers::state::State;
use containers::types::{Bytes32, Uint64};

fn digest(first: u8, last: u8) -> Bytes32 {
    let mut bytes = [0u8; 32];
    bytes[0] = first;
    bytes[31] = last;
    Bytes32(bytes)
}

#[test]
fn digests_are_ordered_by_their_bytes() {
    assert!(digest(0, 1).precedes(&digest(0, 2)));
    assert!(digest(0, 255).precedes(&digest(1, 0)));
    assert!(!digest(1, 0).precedes(&digest(0, 255)));
    assert!(!digest(3, 3).precedes(&digest(3, 3)));
    assert!(digest(0, 1) < digest(0, 2));
    assert!(digest(0, 255) < digest(1, 0));
    assert!(Bytes32::zero().is_zero());
    assert!(!digest(0, 1).is_zero());
    assert_eq!(Bytes32::zero(), Bytes32([0; 32]));
    assert!(digest(2, 0) != digest(2, 1));
}

#[test]
fn the_mapping_keeps_its_roots_in_order() {
    let mut map = Justifications::new();
    assert_eq!(map.len(), 0);
    map.insert(digest(5, 0), vec![true, false]);
    map.insert(digest(1, 0), vec![false, false]);
    map.insert(digest(9, 0), vec![true, true]);
    map.insert(digest(5, 1), vec![false, true]);
    assert_eq!(map.len(), 4);
    assert!(map.is_well_formed());
    assert_eq!(map.roots, vec![digest(1, 0), digest(5, 0), digest(5, 1), digest(9, 0)]);
    assert_eq!(map.get(&digest(5, 1)), Some(&vec![false, true]));
    assert_eq!(map.get(&digest(5, 2)), None);
    assert!(map.contains_key(&digest(9, 0)));
    assert!(!map.contains_key(&digest(0, 0)));
    assert_eq!(map.search(&digest(5, 0)), (true, 1));
    assert_eq!(map.search(&digest(6, 0)), (false, 3));
    assert_eq!(map.search(&digest(10, 0)), (false, 4));

    // a root that is there gets its new flags
    map.insert(digest(5, 0), vec![false, false]);
    assert_eq!(map.len(), 4);
    assert_eq!(map.get(&digest(5, 0)), Some(&vec![false, false]));

    assert_eq!(map.remove(&digest(1, 0)), Some(vec![false, false]));
    assert_eq!(map.remove(&digest(1, 0)), None);
    assert_eq!(map.len(), 3);
    assert_eq!(map.roots, vec![digest(5, 0), digest(5, 1), digest(9, 0)]);
    assert_eq!(map.votes, vec![vec![false, false], vec![false, true], vec![true, true]]);
    assert!(map.is_well_formed());
}

#[test]
fn a_mapping_out_of_order_is_not_well_formed() {
    let map = Justifications { roots: vec![digest(2, 0), digest(1, 0)], votes: vec![vec![], vec![]] };
    assert!(!map.is_well_formed());
    let map = Justifications { roots: vec![digest(1, 0), digest(1, 0)], votes: vec![vec![], vec![]] };
    assert!(!map.is_well_formed());
    let map = Justifications { roots: vec![digest(1, 0)], votes: vec![] };
    assert!(!map.is_well_formed());
    let map = Justifications { roots: vec![digest(1, 0), digest(2, 0)], votes: vec![vec![], vec![]] };
    assert!(map.is_well_formed());
}

#[test]
fn the_state_flattens_the_mapping() {
    let state = State::generate_genesis(Uint64(0), Uint64(3));
    let mut map = Justifications::new();
    map.insert(digest(7, 0), vec![true, false, false]);
    map.insert(digest(2, 0), vec![false, true, true]);
    let state = state.with_justifications(map.clone());
    assert_eq!(state.justifications_roots, vec![digest(2, 0), digest(7, 0)]);
    assert_eq!(state.justifications_validators, vec![false, true, true, true, false, false]);
    assert!(state.is_well_formed());
    assert_eq!(state.get_justifications(), map);

    // and back: the state with its own mapping is the state
    let again = state.clone().with_justifications(state.get_justifications());
    assert_eq!(again, state);

    let emptied = state.with_justifications(Justifications::new());
    assert!(emptied.justifications_roots.is_empty());
    assert!(emptied.justifications_validators.is_empty());
}

#[test]
fn a_mapping_with_too_many_roots_is_dropped() {
    let state = State::generate_genesis(Uint64(0), Uint64(1));
    let mut roots = Vec::new();
    let mut votes = Vec::new();
    for i in 0..8193u32 {
        let mut bytes = [0u8; 32];
        bytes[..4].copy_from_slice(&i.to_be_bytes());
        roots.push(Bytes32(bytes));
        votes.push(vec![true]);
    }
    let map = Justifications { roots: roots.clone(), votes: votes.clone() };
    assert!(map.is_well_formed());
    let dropped = state.clone().with_justifications(map);
    assert!(dropped.justifications_roots.is_empty());
    assert!(dropped.justifications_validators.is_empty());

    roots.pop();
    votes.pop();
    let kept = state.with_justifications(Justifications { roots, votes });
    assert_eq!(kept.justifications_roots.len(), 8192);
    assert_eq!(kept.justifications_validators, vec![true; 8192]);
    assert!(kept.is_well_formed());
}

#[test]
fn a_history_that_is_too_long_is_dropped() {
    let state = State::generate_genesis(Uint64(0), Uint64(1));
    let kept = state.clone().with_historical_hashes(vec![digest(1, 1); 8192]);
    assert_eq!(kept.historical_block_hashes, vec![digest(1, 1); 8192]);
    let dropped = state.with_historical_hashes(vec![digest(1, 1); 8193]);
    assert!(dropped.historical_block_hashes.is_empty());
}

#[test]
fn well_formed_states() {
    let genesis = State::generate_genesis(Uint64(0), Uint64(65536));
    assert!(genesis.is_well_formed());
    assert!(!State::generate_genesis(Uint64(0), Uint64(65537)).is_well_formed());
    assert!(State::generate_genesis(Uint64(0), Uint64(0)).is_well_formed());

    let mut state = State::generate_genesis(Uint64(0), Uint64(2));
    state.justifications_roots = vec![digest(1, 0), digest(2, 0)];
    state.justifications_validators = vec![true, false, false];
    assert!(!state.is_well_formed());
    state.justifications_validators.push(true);
    assert!(state.is_well_formed());
    state.justifications_roots = vec![digest(2, 0), digest(1, 0)];
    assert!(!state.is_well_formed());
    state.justifications_roots = vec![digest(2, 0), digest(2, 0)];
    assert!(!state.is_well_formed());
    state.justifications_roots = vec![digest(1, 0), digest(2, 0)];
    state.justified_slots = vec![false; 8193];
    assert!(!state.is_well_formed());
}

#[test]
fn recording_a_vote() {
    let mut map = Justifications::new();
    let root = digest(4, 4);
    assert!(!map.is_justified(&root, 3));
    assert!(map.record_vote(root, 1, 3));
    assert_eq!(map.get(&root), Some(&vec![false, true, false]));
    assert!(!map.is_justified(&root, 3));
    // the same vote again is no new vote
    assert!(!map.record_vote(root, 1, 3));
    assert_eq!(map.get(&root), Some(&vec![false, true, false]));
    assert_eq!(map.len(), 1);
    // two of three are two thirds
    assert!(map.record_vote(root, 2, 3));
    assert!(map.is_justified(&root, 3));
    assert!(!map.is_justified(&digest(4, 5), 3));
    // a voter outside the registry leaves the flags as they are
    assert!(!map.record_vote(root, 3, 3));
    assert_eq!(map.get(&root), Some(&vec![false, true, true]));
    // but gives a root its flags
    assert!(!map.record_vote(digest(1, 1), 7, 3));
    assert_eq!(map.get(&digest(1, 1)), Some(&vec![false, false, false]));
    assert_eq!(map.roots, vec![digest(1, 1), root]);
}

#[test]
fn two_thirds_are_counted_exactly() {
    for n in 1..=12u64 {
        let mut map = Justifications::new();
        let root = digest(1, 0);
        let mut justified_at = None;
        for voter in 0..n {
            assert!(map.record_vote(root, voter, n));
            if justified_at.is_none() && map.is_justified(&root, n) {
                justified_at = Some(voter + 1);
            }
        }
        // the least count with 3 * count >= 2 * n
        assert_eq!(justified_at, Some((2 * n + 2) / 3), "n = {}", n);
    }
    // without validators nothing is needed
    let mut map = Justifications::new();
    assert!(!map.record_vote(digest(1, 0), 0, 0));
    assert!(map.is_justified(&digest(1, 0), 0));
}
