// The count of votes: which votes count, when a target is justified, when
// a source is finalized.
use containers::block::{hash_tree_root, Block, BlockBody};
use containers::checkpoint::Checkpoint;
use containers::slot::Slot;
use containers::state::State;
use containers::attestations::is_finalizable;
use containers::justifications::count_votes;
use containers::types::{Bytes32, Uint64, ValidatorIndex};
use containers::vote::{SignedVote, Vote};

fn vote(validator: u64, source: &Checkpoint, target: &Checkpoint) -> SignedVote {
    SignedVote {
        data: Vote {
            validator_id: Uint64(validator),
            slot: target.slot,
            head: target.clone(),
            target: target.clone(),
            source: source.clone(),
        },
        signature: Bytes32([0; 32]),
    }
}

// A chain with a block at each of `slots`, advanced one slot further.
fn chain(num_validators: u64, slots: &[u64]) -> State {
    let mut state = State::generate_genesis(Uint64(0), Uint64(num_validators));
    let mut last = 0;
    for &slot in slots {
        let advanced = state.process_slots(Slot(slot)).unwrap();
        let block = Block {
            slot: Slot(slot),
            proposer_index: ValidatorIndex(slot % num_validators),
            parent_root: hash_tree_root(&advanced.latest_block_header),
            state_root: Bytes32([0; 32]),
            body: BlockBody { attestations: Vec::new() },
        };
        state = advanced.process_block(&block).unwrap();
        last = slot;
    }
    state.process_slots(Slot(last + 1)).unwrap()
}

fn checkpoint_at(state: &State, slot: u64) -> Checkpoint {
    if slot == state.latest_block_header.slot.0 {
        Checkpoint { root: hash_tree_root(&state.latest_block_header), slot: Slot(slot) }
    } else {
        Checkpoint { root: state.historical_block_hashes[slot as usize], slot: Slot(slot) }
    }
}

fn unchanged_but_for_votes(pre: &State, post: &State) {
    assert_eq!(post.config, pre.config);
    assert_eq!(post.slot, pre.slot);
    assert_eq!(post.latest_block_header, pre.latest_block_header);
    assert_eq!(post.historical_block_hashes, pre.historical_block_hashes);
}

#[test]
fn six_of_ten_do_not_justify_and_seven_do() {
    let state = chain(10, &[1, 4]);
    let source = checkpoint_at(&state, 0);
    let target = checkpoint_at(&state, 4);

    let six: Vec<SignedVote> = (0..6).map(|i| vote(i, &source, &target)).collect();
    let post = state.process_attestations(&six);
    unchanged_but_for_votes(&state, &post);
    assert_eq!(post.latest_justified, state.latest_justified);
    assert_eq!(post.justified_slots, state.justified_slots);
    assert_eq!(post.justifications_roots, vec![target.root]);
    assert_eq!(
        post.justifications_validators,
        vec![true, true, true, true, true, true, false, false, false, false]
    );
    assert!(post.is_well_formed());

    // the seventh vote, in a later block, meets the six
    let post = post.process_attestations(&vec![vote(9, &source, &target)]);
    assert_eq!(post.latest_justified, target);
    assert_eq!(post.justified_slots, vec![true, false, false, false, true]);
    assert!(post.justifications_roots.is_empty());
    assert!(post.justifications_validators.is_empty());
}

#[test]
fn two_of_three_justify() {
    let state = chain(3, &[1, 2]);
    let source = checkpoint_at(&state, 0);
    let target = checkpoint_at(&state, 2);
    let post = state.process_attestations(&vec![vote(2, &source, &target)]);
    assert_eq!(post.latest_justified, state.latest_justified);
    assert_eq!(post.justifications_validators, vec![false, false, true]);
    let post = post.process_attestations(&vec![vote(0, &source, &target)]);
    assert_eq!(post.latest_justified, target);
}

#[test]
fn a_vote_counts_once() {
    let state = chain(10, &[1, 4]);
    let source = checkpoint_at(&state, 0);
    let target = checkpoint_at(&state, 4);
    let mut votes: Vec<SignedVote> = (0..6).map(|i| vote(i, &source, &target)).collect();
    votes.push(vote(0, &source, &target));
    votes.push(vote(5, &source, &target));
    let post = state.process_attestations(&votes);
    assert_eq!(post.latest_justified, state.latest_justified);
    assert_eq!(count_votes(&post.justifications_validators), 6);

    let once = state.process_attestations(&vec![vote(3, &source, &target)]);
    let twice = state.process_attestations(&vec![vote(3, &source, &target), vote(3, &source, &target)]);
    assert_eq!(once, twice);
}

#[test]
fn a_voter_outside_the_registry_is_not_counted() {
    let state = chain(10, &[1, 4]);
    let source = checkpoint_at(&state, 0);
    let target = checkpoint_at(&state, 4);
    let post = state.process_attestations(&vec![vote(10, &source, &target), vote(u64::MAX, &source, &target)]);
    // the target has its flags, and none is set
    assert_eq!(post.justifications_roots, vec![target.root]);
    assert_eq!(post.justifications_validators, vec![false; 10]);
    assert!(post.get_justifications().contains_key(&target.root));

    let mut votes: Vec<SignedVote> = (0..6).map(|i| vote(i, &source, &target)).collect();
    votes.push(vote(10, &source, &target));
    votes.push(vote(65535, &source, &target));
    let post = state.process_attestations(&votes);
    assert_eq!(post.latest_justified, state.latest_justified);
}

#[test]
fn votes_that_do_not_count_change_nothing() {
    let state = chain(10, &[1, 2, 3, 4, 5, 6, 7, 8]);
    let genesis = checkpoint_at(&state, 0);
    let good = checkpoint_at(&state, 4);

    let mut cases: Vec<(&str, SignedVote)> = Vec::new();
    // block 1 is not justified
    cases.push(("source not justified", vote(0, &checkpoint_at(&state, 1), &good)));
    cases.push((
        "source root unknown",
        vote(0, &Checkpoint { root: Bytes32([9; 32]), slot: Slot(0) }, &good),
    ));
    cases.push((
        "target root unknown",
        vote(0, &genesis, &Checkpoint { root: Bytes32([9; 32]), slot: Slot(4) }),
    ));
    cases.push((
        "target root of another slot",
        vote(0, &genesis, &Checkpoint { root: good.root, slot: Slot(5) }),
    ));
    cases.push(("target not after source", vote(0, &genesis, &genesis)));
    cases.push(("target not justifiable", vote(0, &genesis, &checkpoint_at(&state, 7))));
    cases.push((
        "target beyond the history",
        vote(0, &genesis, &Checkpoint { root: good.root, slot: Slot(9) }),
    ));
    cases.push((
        "source beyond the history",
        vote(0, &Checkpoint { root: genesis.root, slot: Slot(u64::MAX) }, &good),
    ));
    for (what, v) in cases {
        let post = state.process_attestations(&vec![v]);
        assert_eq!(post, state, "{}", what);
    }

    // the same votes among good ones are passed over
    let mut votes: Vec<SignedVote> = Vec::new();
    for i in 0..7 {
        votes.push(vote(i, &checkpoint_at(&state, 1), &good));
        votes.push(vote(i, &genesis, &good));
        votes.push(vote(i, &genesis, &checkpoint_at(&state, 7)));
    }
    let post = state.process_attestations(&votes);
    assert_eq!(post.latest_justified, good);
    assert!(post.justifications_roots.is_empty());
}

#[test]
fn the_latest_header_is_a_target() {
    let state = chain(10, &[1, 2, 3]);
    let genesis = checkpoint_at(&state, 0);
    // the block of slot 3 is the latest header: the history has no root for it yet
    assert_eq!(state.historical_block_hashes.len(), 3);
    let target = checkpoint_at(&state, 3);
    let votes: Vec<SignedVote> = (0..7).map(|i| vote(i, &genesis, &target)).collect();
    let post = state.process_attestations(&votes);
    assert_eq!(post.latest_justified, target);
    // the flags reach the target's slot
    assert_eq!(post.justified_slots, vec![true, false, false, true]);
}

#[test]
fn a_target_that_is_justified_takes_no_more_votes() {
    let state = chain(10, &[1, 4]);
    let source = checkpoint_at(&state, 0);
    let target = checkpoint_at(&state, 4);
    let votes: Vec<SignedVote> = (0..10).map(|i| vote(i, &source, &target)).collect();
    let post = state.process_attestations(&votes);
    assert_eq!(post.latest_justified, target);
    assert!(!post.get_justifications().contains_key(&target.root));
    assert!(post.justifications_roots.is_empty());
    let again = post.process_attestations(&votes);
    assert_eq!(again, post);
}

#[test]
fn a_source_is_finalized_when_nothing_justifiable_lies_between() {
    let state = chain(10, &[1, 2, 3, 4, 5, 6]);
    let genesis = checkpoint_at(&state, 0);
    let first = checkpoint_at(&state, 1);
    let second = checkpoint_at(&state, 2);
    let sixth = checkpoint_at(&state, 6);

    // from genesis to block 1: nothing lies between
    let votes: Vec<SignedVote> = (0..7).map(|i| vote(i, &genesis, &first)).collect();
    let state = state.process_attestations(&votes);
    assert_eq!(state.latest_justified, first);
    assert_eq!(state.latest_finalized, genesis);

    // from block 1 to block 2: block 1 is finalized
    let votes: Vec<SignedVote> = (0..7).map(|i| vote(i, &first, &second)).collect();
    let state = state.process_attestations(&votes);
    assert_eq!(state.latest_justified, second);
    assert_eq!(state.latest_finalized, first);

    // from block 2 to block 6: the slots 3, 4 and 5 lie between, and could
    // have been justified after slot 1, so block 2 is not finalized
    let votes: Vec<SignedVote> = (0..7).map(|i| vote(i, &second, &sixth)).collect();
    let state = state.process_attestations(&votes);
    assert_eq!(state.latest_justified, sixth);
    assert_eq!(state.latest_finalized, first);
    assert_eq!(state.justified_slots, vec![true, true, true, false, false, false, true]);
}

#[test]
fn later_votes_are_judged_by_what_earlier_votes_finalized() {
    let state = chain(10, &[1, 2, 3, 4, 5, 6, 7, 8]);
    let genesis = checkpoint_at(&state, 0);
    let first = checkpoint_at(&state, 1);
    let second = checkpoint_at(&state, 2);
    let eighth = checkpoint_at(&state, 8);
    // slot 8 is not justifiable after slot 0, but it is after slot 1
    let mut votes: Vec<SignedVote> = (0..7).map(|i| vote(i, &genesis, &eighth)).collect();
    assert_eq!(state.process_attestations(&votes), state);
    votes.extend((0..7).map(|i| vote(i, &genesis, &first)));
    votes.extend((0..7).map(|i| vote(i, &first, &second)));
    // by now block 1 is finalized, and 8 - 1 = 7 is not justifiable either
    votes.extend((0..7).map(|i| vote(i, &second, &eighth)));
    let post = state.process_attestations(&votes);
    assert_eq!(post.latest_finalized, first);
    assert_eq!(post.latest_justified, second);
    // slot 7 = 1 + 6 is
    let seventh = checkpoint_at(&state, 7);
    let votes: Vec<SignedVote> = (0..7).map(|i| vote(i, &second, &seventh)).collect();
    let post = post.process_attestations(&votes);
    assert_eq!(post.latest_justified, seventh);
    assert_eq!(post.latest_finalized, first);
}

#[test]
fn targets_are_kept_in_the_order_of_their_roots() {
    let state = chain(4, &[1, 2, 3, 4, 5]);
    let genesis = checkpoint_at(&state, 0);
    let mut targets: Vec<Checkpoint> = (1..=5).map(|s| checkpoint_at(&state, s)).collect();
    let votes: Vec<SignedVote> =
        targets.iter().enumerate().map(|(i, t)| vote(i as u64 % 4, &genesis, t)).collect();
    let post = state.process_attestations(&votes);
    assert!(post.is_well_formed());
    let mut roots: Vec<Bytes32> = targets.iter().map(|t| t.root).collect();
    roots.sort();
    assert_eq!(post.justifications_roots, roots);
    assert_eq!(post.justifications_validators.len(), 20);
    // each target has the flag of its voter
    let map = post.get_justifications();
    targets.reverse();
    for (i, t) in targets.iter().rev().enumerate() {
        let mut expected = vec![false; 4];
        expected[i % 4] = true;
        assert_eq!(map.get(&t.root), Some(&expected));
    }
}

#[test]
fn a_target_beyond_the_flags_is_justified_and_the_flags_are_dropped() {
    let pre = State::generate_genesis(Uint64(0), Uint64(1));
    let advanced = pre.process_slots(Slot(8192)).unwrap();
    let block = Block {
        slot: Slot(8192),
        proposer_index: ValidatorIndex(0),
        parent_root: hash_tree_root(&advanced.latest_block_header),
        state_root: Bytes32([0; 32]),
        body: BlockBody { attestations: Vec::new() },
    };
    let state = advanced.process_block(&block).unwrap();
    assert_eq!(state.justified_slots.len(), 8192);
    let genesis = checkpoint_at(&state, 0);
    // 8192 - 0 is not justifiable, so move the finalized slot to make it so
    let mut state = state;
    state.latest_finalized = Checkpoint { root: genesis.root, slot: Slot(8192 - 4) };
    let target = checkpoint_at(&state, 8192);
    let post = state.process_attestations(&vec![vote(0, &genesis, &target), vote(0, &genesis, &target)]);
    // the vote counts and justifies the latest header
    assert_eq!(post.latest_justified, target);
    assert_eq!(post.latest_finalized, state.latest_finalized);
    assert!(post.justifications_roots.is_empty());
    // 8193 flags are more than a state keeps: none is kept
    assert!(post.justified_slots.is_empty());
    unchanged_but_for_votes(&state, &post);
    assert!(post.is_well_formed());
}

// A state with 8192 roots in its ledger, none of them a block of the chain.
fn with_full_ledger(state: State) -> State {
    let n = state.config.num_validators as usize;
    let mut roots = Vec::new();
    let mut votes = Vec::new();
    for i in 0..8192u32 {
        let mut bytes = [0xffu8; 32];
        bytes[28..].copy_from_slice(&i.to_be_bytes());
        roots.push(Bytes32(bytes));
        votes.push(vec![false; n]);
    }
    let full = state.with_justifications(containers::justifications::Justifications { roots, votes });
    assert_eq!(full.justifications_roots.len(), 8192);
    assert!(full.is_well_formed());
    full
}

#[test]
fn a_full_ledger_does_not_keep_a_target_from_being_justified() {
    let state = with_full_ledger(chain(3, &[1, 2]));
    let source = checkpoint_at(&state, 0);
    let target = checkpoint_at(&state, 2);
    let votes = vec![vote(0, &source, &target), vote(2, &source, &target)];
    let post = state.process_attestations(&votes);
    // two of three voted: the target is justified, its flags are dropped,
    // and the 8192 other roots fit as before
    assert_eq!(post.latest_justified, target);
    assert_eq!(post.justified_slots, vec![true, false, true]);
    assert_eq!(post.justifications_roots, state.justifications_roots);
    assert_eq!(post.justifications_validators, state.justifications_validators);
    assert!(post.is_well_formed());
}

#[test]
fn a_ledger_that_outgrows_the_state_is_dropped_whole() {
    let state = with_full_ledger(chain(3, &[1, 2]));
    let source = checkpoint_at(&state, 0);
    let target = checkpoint_at(&state, 2);
    // one of three voted: the target keeps its flags, the 8193rd root
    let post = state.process_attestations(&vec![vote(1, &source, &target)]);
    assert_eq!(post.latest_justified, state.latest_justified);
    assert_eq!(post.justified_slots, state.justified_slots);
    assert!(post.justifications_roots.is_empty());
    assert!(post.justifications_validators.is_empty());
    assert!(post.is_well_formed());
}

#[test]
fn counting_and_scanning() {
    assert_eq!(count_votes(&vec![]), 0);
    assert_eq!(count_votes(&vec![true, false, true, true]), 3);
    assert!(is_finalizable(Slot(4), Slot(5), Slot(0)));
    assert!(is_finalizable(Slot(4), Slot(4), Slot(0)));
    assert!(is_finalizable(Slot(5), Slot(4), Slot(0)));
    assert!(!is_finalizable(Slot(0), Slot(4), Slot(0)));
    // 7 and 8 are not justifiable after 0, 9 is
    assert!(is_finalizable(Slot(6), Slot(9), Slot(0)));
    assert!(!is_finalizable(Slot(6), Slot(10), Slot(0)));
    // slots before the finalized one are not justifiable
    assert!(is_finalizable(Slot(1), Slot(4), Slot(4)));
    assert!(!is_finalizable(Slot(1), Slot(5), Slot(4)));
}
