//! The state of a chain, its well-formedness and its hash tree root.
use crate::block::{body_root, BlockBody, BlockHeader};
use crate::checkpoint::Checkpoint;
use crate::config::Config;
use crate::error::TransitionError;
use crate::ascending::{lemma_adjacent_ascending, strictly_ascending};
use crate::slot::Slot;
use crate::ssz::{
    bit_list_root, digest_seqs, hash_bit_list, hash_digest_list, list_root, merkle_root,
    merkleize, push_digest, push_u64_chunk, u64_chunk, SszHash,
};
use crate::types::{
    bytes_precede, digest_of, lemma_digest_of, zero_bytes, zero_digest, Bytes32, Uint64,
    ValidatorIndex,
};
use vstd::prelude::*;

verus! {

// Limits used across justification tracking
/// The most validators that a registry can hold: 65536.
pub const VALIDATOR_REGISTRY_LIMIT: usize = 65_536;

/// The most target roots that can have votes in progress: 8192.
pub const JUSTIFICATION_ROOTS_LIMIT: usize = 8_192;

/// The most flags that a state keeps: one for each validator, for each
/// root, 65536 times 8192.
pub const JUSTIFICATIONS_VALIDATORS_MAX: usize = VALIDATOR_REGISTRY_LIMIT
    * JUSTIFICATION_ROOTS_LIMIT;

/// The most slots whose block roots and justified flags a state keeps.
pub const HISTORY_LIMIT: usize = 8_192;

/// The state of the chain at a slot.
#[derive(Debug, PartialEq, Eq, Default)]
pub struct State {
    // --- configuration ---
    pub config: Config,
    // --- slot / header tracking ---
    pub slot: Slot,
    pub latest_block_header: BlockHeader,
    // --- fork-choice checkpoints ---
    pub latest_justified: Checkpoint,
    pub latest_finalized: Checkpoint,
    // --- historical data ---
    pub historical_block_hashes: Vec<Bytes32>,
    // --- flattened justification tracking ---
    pub justified_slots: Vec<bool>,
    pub justifications_roots: Vec<Bytes32>,
    // Flattened votes: one flag per validator for each root, in the roots' order
    pub justifications_validators: Vec<bool>,
}

/// A state as a value: its lists are sequences.
pub struct StateView {
    pub config: Config,
    pub slot: Slot,
    pub latest_block_header: BlockHeader,
    pub latest_justified: Checkpoint,
    pub latest_finalized: Checkpoint,
    pub historical_block_hashes: Seq<Bytes32>,
    pub justified_slots: Seq<bool>,
    pub justifications_roots: Seq<Bytes32>,
    pub justifications_validators: Seq<bool>,
}

impl View for State {
    type V = StateView;

    open spec fn view(&self) -> StateView {
        StateView {
            config: self.config,
            slot: self.slot,
            latest_block_header: self.latest_block_header,
            latest_justified: self.latest_justified,
            latest_finalized: self.latest_finalized,
            historical_block_hashes: self.historical_block_hashes@,
            justified_slots: self.justified_slots@,
            justifications_roots: self.justifications_roots@,
            justifications_validators: self.justifications_validators@,
        }
    }
}

/// What a list of the given capacity keeps of `items`: all of them where
/// they fit, and none where they do not. A list is never cut to its
/// capacity: what is too long for it is dropped whole.
pub open spec fn kept<T>(items: Seq<T>, capacity: nat) -> Seq<T> {
    if items.len() <= capacity {
        items
    } else {
        Seq::empty()
    }
}

/// Round robin: the proposer of a slot is the validator whose index leaves
/// the same remainder as the slot when divided by the number of validators.
/// A registry without validators has no proposer.
pub open spec fn is_proposer_for(slot: u64, num_validators: u64, index: u64) -> bool {
    num_validators > 0 && slot % num_validators == index % num_validators
}

impl StateView {
    /// The state at genesis: slot 0, nothing behind it, and a header for the
    /// empty block.
    pub open spec fn genesis(genesis_time: u64, num_validators: u64) -> StateView {
        StateView {
            config: Config { num_validators, genesis_time },
            slot: Slot(0),
            latest_block_header: BlockHeader {
                slot: Slot(0),
                proposer_index: ValidatorIndex(0),
                parent_root: zero_digest(),
                state_root: zero_digest(),
                body_root: digest_of(body_root(Seq::empty())),
            },
            latest_justified: Checkpoint { root: zero_digest(), slot: Slot(0) },
            latest_finalized: Checkpoint { root: zero_digest(), slot: Slot(0) },
            historical_block_hashes: Seq::empty(),
            justified_slots: Seq::empty(),
            justifications_roots: Seq::empty(),
            justifications_validators: Seq::empty(),
        }
    }

    /// No list is longer than its capacity.
    pub open spec fn within_limits(self) -> bool {
        &&& self.historical_block_hashes.len() <= HISTORY_LIMIT
        &&& self.justified_slots.len() <= HISTORY_LIMIT
        &&& self.justifications_roots.len() <= JUSTIFICATION_ROOTS_LIMIT
        &&& self.justifications_validators.len() <= JUSTIFICATIONS_VALIDATORS_MAX
    }

    /// What holds of every state of a chain: its lists are within their
    /// capacities, the registry within its own, the roots with votes ascend,
    /// and each of them has one flag for each validator.
    pub open spec fn wf(self) -> bool {
        &&& self.historical_block_hashes.len() <= HISTORY_LIMIT
        &&& self.justified_slots.len() <= HISTORY_LIMIT
        &&& self.justifications_roots.len() <= JUSTIFICATION_ROOTS_LIMIT
        &&& self.config.num_validators <= VALIDATOR_REGISTRY_LIMIT
        &&& self.justifications_validators.len() == self.justifications_roots.len()
            * self.config.num_validators
        &&& strictly_ascending(self.justifications_roots)
    }

    /// The hash tree root of the state. A state with a list beyond its
    /// capacity has no place in the tree, and the zero digest stands for its
    /// root.
    pub open spec fn tree_root(self) -> Seq<u8> {
        if self.within_limits() {
            merkle_root(
                self.config.tree_root() + u64_chunk(self.slot.0)
                    + self.latest_block_header.tree_root() + self.latest_justified.tree_root()
                    + self.latest_finalized.tree_root() + list_root(
                    digest_seqs(self.historical_block_hashes),
                    HISTORY_LIMIT,
                ) + bit_list_root(self.justified_slots, HISTORY_LIMIT) + list_root(
                    digest_seqs(self.justifications_roots),
                    JUSTIFICATION_ROOTS_LIMIT,
                ) + bit_list_root(self.justifications_validators, JUSTIFICATIONS_VALIDATORS_MAX),
                None,
            )
        } else {
            zero_bytes()
        }
    }

    /// The state with the given block roots for its history. A history
    /// longer than the capacity is dropped whole.
    pub open spec fn with_historical_hashes(self, hashes: Seq<Bytes32>) -> StateView {
        StateView { historical_block_hashes: kept(hashes, HISTORY_LIMIT as nat), ..self }
    }
}

/// What a transition gave, with the state as a value.
pub open spec fn view_result(result: Result<State, TransitionError>) -> Result<
    StateView,
    TransitionError,
> {
    match result {
        Ok(state) => Ok(state@),
        Err(e) => Err(e),
    }
}

impl Clone for State {
    fn clone(&self) -> (copy: State)
        ensures
            copy@ == self@,
    {
        State {
            config: self.config,
            slot: self.slot,
            latest_block_header: self.latest_block_header,
            latest_justified: self.latest_justified,
            latest_finalized: self.latest_finalized,
            historical_block_hashes: copy_digests(&self.historical_block_hashes),
            justified_slots: copy_flags(&self.justified_slots),
            justifications_roots: copy_digests(&self.justifications_roots),
            justifications_validators: copy_flags(&self.justifications_validators),
        }
    }
}

/// A copy of a list of digests.
pub(crate) fn copy_digests(digests: &Vec<Bytes32>) -> (copy: Vec<Bytes32>)
    ensures
        copy@ == digests@,
{
    let mut copy: Vec<Bytes32> = Vec::new();
    let mut i: usize = 0;
    while i < digests.len()
        invariant
            i <= digests@.len(),
            copy@ == digests@.subrange(0, i as int),
        decreases digests@.len() - i,
    {
        copy.push(digests[i]);
        i += 1;
        assert(copy@ =~= digests@.subrange(0, i as int));
    }
    assert(digests@.subrange(0, digests@.len() as int) =~= digests@);
    copy
}

/// A copy of a list of flags.
pub(crate) fn copy_flags(flags: &Vec<bool>) -> (copy: Vec<bool>)
    ensures
        copy@ == flags@,
{
    let mut copy: Vec<bool> = Vec::new();
    let mut i: usize = 0;
    while i < flags.len()
        invariant
            i <= flags@.len(),
            copy@ == flags@.subrange(0, i as int),
        decreases flags@.len() - i,
    {
        copy.push(flags[i]);
        i += 1;
        assert(copy@ =~= flags@.subrange(0, i as int));
    }
    assert(flags@.subrange(0, flags@.len() as int) =~= flags@);
    copy
}

impl SszHash for State {
    open spec fn tree_root(&self) -> Seq<u8> {
        self@.tree_root()
    }

    fn hash_tree_root(&self) -> (root: Bytes32) {
        if self.historical_block_hashes.len() > HISTORY_LIMIT
            || self.justified_slots.len() > HISTORY_LIMIT
            || self.justifications_roots.len() > JUSTIFICATION_ROOTS_LIMIT
            || self.justifications_validators.len() > JUSTIFICATIONS_VALIDATORS_MAX {
            return Bytes32::zero();
        }
        let config = self.config.hash_tree_root();
        let header = self.latest_block_header.hash_tree_root();
        let justified = self.latest_justified.hash_tree_root();
        let finalized = self.latest_finalized.hash_tree_root();
        let hashes = hash_digest_list(&self.historical_block_hashes, HISTORY_LIMIT);
        let slots = hash_bit_list(&self.justified_slots, HISTORY_LIMIT);
        let roots = hash_digest_list(&self.justifications_roots, JUSTIFICATION_ROOTS_LIMIT);
        let validators = hash_bit_list(
            &self.justifications_validators,
            JUSTIFICATIONS_VALIDATORS_MAX,
        );
        let mut chunks: Vec<u8> = Vec::new();
        push_digest(&mut chunks, &config);
        push_u64_chunk(&mut chunks, self.slot.0);
        push_digest(&mut chunks, &header);
        push_digest(&mut chunks, &justified);
        push_digest(&mut chunks, &finalized);
        push_digest(&mut chunks, &hashes);
        push_digest(&mut chunks, &slots);
        push_digest(&mut chunks, &roots);
        push_digest(&mut chunks, &validators);
        proof {
            vstd::bytes::lemma_auto_spec_u64_to_from_le_bytes();
            assert(chunks@ =~= self.config.tree_root() + u64_chunk(self.slot.0)
                + self.latest_block_header.tree_root() + self.latest_justified.tree_root()
                + self.latest_finalized.tree_root() + list_root(
                digest_seqs(self.historical_block_hashes@),
                HISTORY_LIMIT,
            ) + bit_list_root(self.justified_slots@, HISTORY_LIMIT) + list_root(
                digest_seqs(self.justifications_roots@),
                JUSTIFICATION_ROOTS_LIMIT,
            ) + bit_list_root(self.justifications_validators@, JUSTIFICATIONS_VALIDATORS_MAX));
        }
        merkleize(&chunks, None)
    }
}

impl State {
    /// The state at genesis: slot 0, an empty history, no votes, the
    /// justified and the finalized checkpoint at slot 0 with the zero root,
    /// and the header of a block with an empty body.
    pub fn generate_genesis(genesis_time: Uint64, num_validators: Uint64) -> (genesis: State)
        ensures
            genesis@ == StateView::genesis(genesis_time.0, num_validators.0),
            genesis.slot.0 == 0,
            genesis.historical_block_hashes@.len() == 0,
            genesis.justified_slots@.len() == 0,
            genesis.justifications_roots@.len() == 0,
            genesis.justifications_validators@.len() == 0,
            genesis.latest_block_header.body_root@ == body_root(Seq::empty()),
            genesis@.wf() == (num_validators.0 <= VALIDATOR_REGISTRY_LIMIT),
    {
        let body_for_root = BlockBody { attestations: Vec::new() };
        let body_root = body_for_root.hash_tree_root();
        let header = BlockHeader {
            slot: Slot(0),
            proposer_index: ValidatorIndex(0),
            parent_root: Bytes32::zero(),
            state_root: Bytes32::zero(),
            body_root,
        };
        proof {
            lemma_digest_of(body_root);
            assert(body_for_root@ =~= Seq::empty());
            assert(0 == 0 * num_validators.0) by (nonlinear_arith);
        }
        State {
            config: Config { genesis_time: genesis_time.0, num_validators: num_validators.0 },
            slot: Slot(0),
            latest_block_header: header,
            latest_justified: Checkpoint { root: Bytes32::zero(), slot: Slot(0) },
            latest_finalized: Checkpoint { root: Bytes32::zero(), slot: Slot(0) },
            historical_block_hashes: Vec::new(),
            justified_slots: Vec::new(),
            justifications_roots: Vec::new(),
            justifications_validators: Vec::new(),
        }
    }

    /// Simple RR proposer rule (round-robin).
    pub fn is_proposer(&self, index: ValidatorIndex) -> (r: bool)
        requires
            self.config.num_validators > 0,
        ensures
            r == (self.slot.0 % self.config.num_validators == index.0
                % self.config.num_validators),
            r == is_proposer_for(self.slot.0, self.config.num_validators, index.0),
    {
        (self.slot.0 % self.config.num_validators) == (index.0 % self.config.num_validators)
    }

    /// Whether the fields hold a state of a chain: see [`StateView::wf`].
    pub fn is_well_formed(&self) -> (r: bool)
        ensures
            r == self@.wf(),
    {
        if self.historical_block_hashes.len() > HISTORY_LIMIT
            || self.justified_slots.len() > HISTORY_LIMIT
            || self.justifications_roots.len() > JUSTIFICATION_ROOTS_LIMIT
            || self.config.num_validators > VALIDATOR_REGISTRY_LIMIT as u64 {
            return false;
        }
        let roots = self.justifications_roots.len();
        let n = self.config.num_validators as usize;
        assert(roots * n <= 8192 * 65536) by (nonlinear_arith)
            requires
                roots <= 8192,
                n <= 65536,
        ;
        if self.justifications_validators.len() != roots * n {
            return false;
        }
        let mut i: usize = 1;
        while i < roots
            invariant
                1 <= i,
                roots == self.justifications_roots@.len(),
                forall|k: int|
                    0 <= k < i - 1 ==> bytes_precede(
                        #[trigger] self.justifications_roots@[k]@,
                        self.justifications_roots@[k + 1]@,
                    ),
            decreases roots - i,
        {
            if !self.justifications_roots[i - 1].precedes(&self.justifications_roots[i]) {
                assert(!strictly_ascending(self.justifications_roots@)) by {
                    if strictly_ascending(self.justifications_roots@) {
                        assert(bytes_precede(
                            self.justifications_roots@[i - 1]@,
                            self.justifications_roots@[i as int]@,
                        ));
                    }
                }
                return false;
            }
            i += 1;
        }
        proof {
            lemma_adjacent_ascending(self.justifications_roots@);
        }
        true
    }

    /// The state with `hashes` for its history of block roots. A history
    /// longer than a state can keep is dropped whole.
    pub fn with_historical_hashes(self, hashes: Vec<Bytes32>) -> (post: State)
        ensures
            post@ == self@.with_historical_hashes(hashes@),
            self@.wf() ==> post@.wf(),
    {
        let kept = if hashes.len() <= HISTORY_LIMIT {
            hashes
        } else {
            Vec::new()
        };
        State {
            config: self.config,
            slot: self.slot,
            latest_block_header: self.latest_block_header,
            latest_justified: self.latest_justified,
            latest_finalized: self.latest_finalized,
            historical_block_hashes: kept,
            justified_slots: self.justified_slots,
            justifications_roots: self.justifications_roots,
            justifications_validators: self.justifications_validators,
        }
    }
}

} // verus!
