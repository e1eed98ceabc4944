//! Judging test vectors: a state to start from, blocks or votes to apply,
//! and what is expected to come out.
use crate::block::{SignedBlock, SignedBlockView};
use crate::error::TransitionError;
use crate::state::{State, StateView};
use crate::vote::SignedVote;
use vstd::prelude::*;

verus! {

/// The most votes of a case that are counted.
pub const MAX_CASE_VOTES: usize = 4096;

/// What the blocks of a case are put through.
#[derive(Clone, Copy, Debug, PartialEq, Eq, Structural)]
pub enum CaseKind {
    /// The whole transition, with the signatures taken as valid.
    StateTransition,
    /// The slots up to the block's, then the block's header alone.
    BlockProcessing,
}

/// Why a block of a case was not applied.
#[derive(Clone, Copy, Debug, PartialEq, Eq, Structural)]
pub enum Rejection {
    /// The state that the block met was not well-formed.
    MalformedState,
    /// The transition refused the block.
    Refused(TransitionError),
}

/// What became of one block of a case.
#[derive(Clone, Copy, Debug, PartialEq, Eq, Structural)]
pub enum BlockOutcome {
    Applied,
    Rejected(Rejection),
}

/// How a case of blocks ended.
#[derive(Clone, Copy, Debug, PartialEq, Eq, Structural)]
pub enum Verdict {
    /// The blocks were applied and the state that came out is the expected one.
    PostStateMatches,
    /// The blocks were applied, and the case expects no particular state.
    Completed,
    /// The blocks were applied, to another state than the expected one.
    PostStateMismatch,
    /// The case is one of invalid blocks, and each was rejected.
    AllRejected,
    /// A block of a case of invalid blocks was applied.
    InvalidBlockAccepted,
    /// A block of a case of valid blocks was rejected.
    ValidBlockRejected,
}

/// How a case of votes ended.
#[derive(Clone, Copy, Debug, PartialEq, Eq, Structural)]
pub enum VoteVerdict {
    /// The case expects no particular state.
    Unchecked,
    /// The votes led to the expected checkpoints.
    Matches,
    /// The votes led to other checkpoints than the expected ones.
    Mismatch,
}

/// The record of a case of blocks: what became of each block that was
/// tried, in order, how the case ended, and the state that the blocks which
/// were applied led to.
#[derive(Debug, PartialEq, Eq)]
pub struct CaseReport {
    pub blocks: Vec<BlockOutcome>,
    pub verdict: Verdict,
    pub state: State,
}

/// What trying the blocks of a case gives.
pub struct BlocksRun {
    /// What became of each block that was tried.
    pub outcomes: Seq<BlockOutcome>,
    /// The state that the blocks which were applied led to.
    pub state: StateView,
    /// Whether a block met the fate that the case does not expect.
    pub failed: bool,
}

/// One block put through what the kind of case asks for.
pub open spec fn attempt(kind: CaseKind, state: StateView, block: SignedBlockView) -> Result<
    StateView,
    Rejection,
> {
    match kind {
        CaseKind::StateTransition => if !state.wf() {
            Err(Rejection::MalformedState)
        } else {
            match state.state_transition(block, true) {
                Ok(post) => Ok(post),
                Err(e) => Err(Rejection::Refused(e)),
            }
        },
        CaseKind::BlockProcessing => match state.process_slots(block.message.slot) {
            Err(e) => Err(Rejection::Refused(e)),
            Ok(advanced) => match advanced.process_block_header(block.message) {
                Ok(post) => Ok(post),
                Err(e) => Err(Rejection::Refused(e)),
            },
        },
    }
}

/// The blocks of a case tried in order, from `state`. In a case of valid
/// blocks each block meets the state that the one before it led to, and the
/// first rejection ends the case. In a case of invalid blocks each block
/// meets the same state, and the first block that is applied ends the case,
/// without a change to the state.
pub open spec fn run_blocks(
    kind: CaseKind,
    state: StateView,
    blocks: Seq<SignedBlockView>,
    valid: bool,
) -> BlocksRun
    decreases blocks.len(),
{
    if blocks.len() == 0 {
        BlocksRun { outcomes: Seq::empty(), state, failed: false }
    } else {
        match attempt(kind, state, blocks[0]) {
            Ok(post) => if valid {
                let rest = run_blocks(kind, post, blocks.drop_first(), valid);
                BlocksRun { outcomes: seq![BlockOutcome::Applied] + rest.outcomes, ..rest }
            } else {
                BlocksRun { outcomes: seq![BlockOutcome::Applied], state, failed: true }
            },
            Err(r) => if valid {
                BlocksRun { outcomes: seq![BlockOutcome::Rejected(r)], state, failed: true }
            } else {
                let rest = run_blocks(kind, state, blocks.drop_first(), valid);
                BlocksRun { outcomes: seq![BlockOutcome::Rejected(r)] + rest.outcomes, ..rest }
            },
        }
    }
}

/// Whether a state is the one that a case of blocks expects: the slot and
/// the two checkpoints are compared, and for a case of block processing the
/// slot of the latest header too.
pub open spec fn post_matches(kind: CaseKind, state: StateView, expected: StateView) -> bool {
    &&& state.slot == expected.slot
    &&& state.latest_justified == expected.latest_justified
    &&& state.latest_finalized == expected.latest_finalized
    &&& (kind == CaseKind::BlockProcessing ==> state.latest_block_header.slot
        == expected.latest_block_header.slot)
}

/// How a case of blocks ends, given what trying its blocks gave.
pub open spec fn verdict_of(
    kind: CaseKind,
    run: BlocksRun,
    valid: bool,
    expected: Option<StateView>,
) -> Verdict {
    if run.failed {
        if valid {
            Verdict::ValidBlockRejected
        } else {
            Verdict::InvalidBlockAccepted
        }
    } else if !valid {
        Verdict::AllRejected
    } else {
        match expected {
            None => Verdict::Completed,
            Some(e) => if post_matches(kind, run.state, e) {
                Verdict::PostStateMatches
            } else {
                Verdict::PostStateMismatch
            },
        }
    }
}

/// The view of an optional state.
pub open spec fn view_option(state: Option<&State>) -> Option<StateView> {
    match state {
        Some(s) => Some(s@),
        None => None,
    }
}

/// The views of the blocks of a list.
pub open spec fn block_views(blocks: Seq<SignedBlock>) -> Seq<SignedBlockView> {
    Seq::new(blocks.len(), |i: int| blocks[i]@)
}

/// Puts one block through what the kind of case asks for.
pub fn attempt_block(kind: CaseKind, state: &State, block: &SignedBlock) -> (result: Result<
    State,
    Rejection,
>)
    ensures
        match result {
            Ok(post) => attempt(kind, state@, block@) == Ok::<StateView, Rejection>(post@),
            Err(r) => attempt(kind, state@, block@) == Err::<StateView, Rejection>(r),
        },
{
    match kind {
        CaseKind::StateTransition => {
            if !state.is_well_formed() {
                return Err(Rejection::MalformedState);
            }
            match state.state_transition(copy_block(block), true) {
                Ok(post) => Ok(post),
                Err(e) => Err(Rejection::Refused(e)),
            }
        },
        CaseKind::BlockProcessing => {
            let advanced = match state.process_slots(block.message.slot) {
                Ok(advanced) => advanced,
                Err(e) => {
                    return Err(Rejection::Refused(e));
                },
            };
            match advanced.process_block_header(&block.message) {
                Ok(post) => Ok(post),
                Err(e) => Err(Rejection::Refused(e)),
            }
        },
    }
}

/// A copy of a signed block.
pub(crate) fn copy_block(block: &SignedBlock) -> (copy: SignedBlock)
    ensures
        copy@ == block@,
{
    let mut attestations: Vec<SignedVote> = Vec::new();
    let mut i: usize = 0;
    while i < block.message.body.attestations.len()
        invariant
            i <= block.message.body.attestations@.len(),
            attestations@ == block.message.body.attestations@.subrange(0, i as int),
        decreases block.message.body.attestations@.len() - i,
    {
        attestations.push(block.message.body.attestations[i]);
        i += 1;
        assert(attestations@ =~= block.message.body.attestations@.subrange(0, i as int));
    }
    assert(block.message.body.attestations@.subrange(
        0,
        block.message.body.attestations@.len() as int,
    ) =~= block.message.body.attestations@);
    SignedBlock {
        message: crate::block::Block {
            slot: block.message.slot,
            proposer_index: block.message.proposer_index,
            parent_root: block.message.parent_root,
            state_root: block.message.state_root,
            body: crate::block::BlockBody { attestations },
        },
        signature: block.signature,
    }
}

/// Whether `state` is the one that a case of blocks expects.
pub fn matches_post(kind: CaseKind, state: &State, expected: &State) -> (r: bool)
    ensures
        r == post_matches(kind, state@, expected@),
{
    let header_slot_matches = match kind {
        CaseKind::StateTransition => true,
        CaseKind::BlockProcessing => state.latest_block_header.slot.0
            == expected.latest_block_header.slot.0,
    };
    state.slot.0 == expected.slot.0 && state.latest_justified == expected.latest_justified
        && state.latest_finalized == expected.latest_finalized && header_slot_matches
}

/// Judges a case of blocks: tries the blocks in order from `pre`, and holds
/// the outcome against what the case expects. `valid` says whether the
/// blocks of the case are meant to be applied or to be rejected.
pub fn run_block_case(
    kind: CaseKind,
    pre: &State,
    blocks: &Vec<SignedBlock>,
    valid: bool,
    post: Option<&State>,
) -> (report: CaseReport)
    ensures
        report.blocks@ == run_blocks(kind, pre@, block_views(blocks@), valid).outcomes,
        report.state@ == run_blocks(kind, pre@, block_views(blocks@), valid).state,
        report.verdict == verdict_of(
            kind,
            run_blocks(kind, pre@, block_views(blocks@), valid),
            valid,
            view_option(post),
        ),
{
    let mut state = pre.clone();
    let mut outcomes: Vec<BlockOutcome> = Vec::new();
    let mut failed = false;
    let mut i: usize = 0;
    let ghost all = block_views(blocks@);
    assert(all.skip(0) =~= all);
    while i < blocks.len() && !failed
        invariant
            i <= blocks@.len(),
            all == block_views(blocks@),
            !failed ==> run_blocks(kind, pre@, all, valid) == (BlocksRun {
                outcomes: outcomes@ + run_blocks(
                    kind,
                    state@,
                    all.skip(i as int),
                    valid,
                ).outcomes,
                ..run_blocks(kind, state@, all.skip(i as int), valid)
            }),
            failed ==> run_blocks(kind, pre@, all, valid) == (BlocksRun {
                outcomes: outcomes@,
                state: state@,
                failed: true,
            }),
        decreases blocks@.len() - i,
    {
        let ghost rest = all.skip(i as int);
        proof {
            assert(rest.len() > 0);
            assert(rest[0] == blocks@[i as int]@);
            assert(rest.drop_first() =~= all.skip(i + 1));
        }
        let ghost before = outcomes@;
        match attempt_block(kind, &state, &blocks[i]) {
            Ok(post_state) => {
                outcomes.push(BlockOutcome::Applied);
                if valid {
                    proof {
                        let tail = run_blocks(kind, post_state@, all.skip(i + 1), valid);
                        assert(before + (seq![BlockOutcome::Applied] + tail.outcomes)
                            =~= outcomes@ + tail.outcomes);
                    }
                    state = post_state;
                } else {
                    proof {
                        assert(before + seq![BlockOutcome::Applied] =~= outcomes@);
                    }
                    failed = true;
                }
            },
            Err(r) => {
                outcomes.push(BlockOutcome::Rejected(r));
                if valid {
                    proof {
                        assert(before + seq![BlockOutcome::Rejected(r)] =~= outcomes@);
                    }
                    failed = true;
                } else {
                    proof {
                        let tail = run_blocks(kind, state@, all.skip(i + 1), valid);
                        assert(before + (seq![BlockOutcome::Rejected(r)] + tail.outcomes)
                            =~= outcomes@ + tail.outcomes);
                    }
                }
            },
        }
        i += 1;
    }
    proof {
        if !failed {
            assert(all.skip(i as int).len() == 0);
            assert(outcomes@ + Seq::<BlockOutcome>::empty() =~= outcomes@);
        }
    }
    let verdict = if failed {
        if valid {
            Verdict::ValidBlockRejected
        } else {
            Verdict::InvalidBlockAccepted
        }
    } else if !valid {
        Verdict::AllRejected
    } else {
        match post {
            None => Verdict::Completed,
            Some(expected) => if matches_post(kind, &state, expected) {
                Verdict::PostStateMatches
            } else {
                Verdict::PostStateMismatch
            },
        }
    };
    CaseReport { blocks: outcomes, verdict, state }
}

/// The votes of a case that are counted: the first [`MAX_CASE_VOTES`].
pub open spec fn counted_votes(votes: Seq<SignedVote>) -> Seq<SignedVote> {
    if votes.len() <= MAX_CASE_VOTES {
        votes
    } else {
        votes.take(MAX_CASE_VOTES as int)
    }
}

/// How a case of votes ends: the two checkpoints of the state after the
/// votes are compared with the expected ones.
pub open spec fn vote_verdict_of(
    pre: StateView,
    votes: Seq<SignedVote>,
    expected: Option<StateView>,
) -> VoteVerdict {
    let state = pre.process_attestations(counted_votes(votes));
    match expected {
        None => VoteVerdict::Unchecked,
        Some(e) => if state.latest_justified == e.latest_justified && state.latest_finalized
            == e.latest_finalized {
            VoteVerdict::Matches
        } else {
            VoteVerdict::Mismatch
        },
    }
}

/// Judges a case of votes: counts the votes on `pre`, and holds the two
/// checkpoints that come out against the expected ones. Gives the state
/// after the votes as well.
pub fn run_vote_case(pre: &State, votes: &Vec<SignedVote>, post: Option<&State>) -> (result: (
    VoteVerdict,
    State,
))
    requires
        pre@.wf(),
    ensures
        result.0 == vote_verdict_of(pre@, votes@, view_option(post)),
        result.1@ == pre@.process_attestations(counted_votes(votes@)),
{
    let mut attestations: Vec<SignedVote> = Vec::new();
    let mut idx: usize = 0;
    while idx < votes.len() && idx < MAX_CASE_VOTES
        invariant
            idx <= votes@.len(),
            idx <= MAX_CASE_VOTES,
            attestations@ == votes@.take(idx as int),
        decreases votes@.len() - idx,
    {
        attestations.push(votes[idx]);
        idx += 1;
        assert(attestations@ =~= votes@.take(idx as int));
    }
    assert(attestations@ =~= counted_votes(votes@));
    let new_state = pre.process_attestations(&attestations);
    let verdict = match post {
        None => VoteVerdict::Unchecked,
        Some(expected) => if new_state.latest_justified == expected.latest_justified
            && new_state.latest_finalized == expected.latest_finalized {
            VoteVerdict::Matches
        } else {
            VoteVerdict::Mismatch
        },
    };
    (verdict, new_state)
}

} // verus!
