//! Counting the votes that a block carries: which votes count, when a
//! target is justified, and when its source is finalized.
use crate::block::BlockBody;
use crate::checkpoint::Checkpoint;
use crate::ascending::lemma_assoc_dom;
use crate::justifications::{
    count_true, flags_of, has_supermajority, lemma_count_no_votes, lemma_count_one_more,
    lemma_record_vote_once, lemma_rows_of, no_votes, uniform_rows, vote_is_new, with_vote,
};
use crate::ledger::{
    lemma_ledger_round_trip, lemma_with_justifications_ledger, lemma_with_justifications_wf,
    vote_chunk,
};
use crate::slot::{justifiable_after, Slot};
use crate::ssz::SszHash;
use crate::state::{
    copy_flags, kept, State, StateView, HISTORY_LIMIT, JUSTIFICATION_ROOTS_LIMIT,
};
use crate::types::{lemma_bytes32_ext, Bytes32};
use crate::vote::{SignedVote, Vote};
use vstd::prelude::*;

verus! {

/// What the votes of a block change while they are counted, one by one.
pub struct VoteTally {
    /// For each target root with votes that is not yet justified, one flag
    /// per validator.
    pub justifications: Map<Bytes32, Seq<bool>>,
    pub latest_justified: Checkpoint,
    pub latest_finalized: Checkpoint,
    pub justified_slots: Seq<bool>,
}

/// Whether `slot` has a flag in `flags`, and the flag is set.
pub open spec fn slot_flag(flags: Seq<bool>, slot: u64) -> bool {
    slot < flags.len() && flags[slot as int]
}

/// Whether the history holds `root` for `slot`.
pub open spec fn slot_root_is(hashes: Seq<Bytes32>, slot: u64, root: Bytes32) -> bool {
    slot < hashes.len() && hashes[slot as int] == root
}

/// A source is finalized by the justification of a target when no slot
/// strictly between the two could still have been justified.
///
/// A slot before the finalized one is taken as not justifiable here (see
/// [`justifiable_after`]): whether a slot may be justified is asked only of
/// slots from the finalized one on, and this scan does not fail where the
/// source lies further back, it passes over the slots that are settled.
pub open spec fn finalizable(source: u64, target: u64, finalized: u64) -> bool {
    forall|s: u64| source < s < target ==> !#[trigger] justifiable_after(s, finalized)
}

/// The flags with the one of `slot` set, after as many unset flags as it
/// takes to reach `slot`.
pub open spec fn mark_slot(flags: Seq<bool>, slot: u64) -> Seq<bool> {
    let reached = if flags.len() <= slot {
        flags + Seq::new((slot + 1 - flags.len()) as nat, |i: int| false)
    } else {
        flags
    };
    reached.update(slot as int, true)
}

/// The flags that a list of at most [`HISTORY_LIMIT`] flags stands for,
/// together with the word `beyond` on the latest header's slot: where
/// `beyond` holds, the flags go on unset up to that slot, whose flag is set.
pub open spec fn slot_flags(low: Seq<bool>, beyond: bool, header: u64) -> Seq<bool> {
    if beyond {
        low + Seq::new((header - low.len()) as nat, |i: int| false) + seq![true]
    } else {
        low
    }
}

/// The flag of a slot, read from the list and the word on the header's slot.
pub proof fn lemma_slot_flags_read(low: Seq<bool>, beyond: bool, header: u64, slot: u64)
    requires
        beyond ==> low.len() <= header,
    ensures
        slot_flag(slot_flags(low, beyond, header), slot) == if slot < low.len() {
            low[slot as int]
        } else {
            beyond && slot == header
        },
{
}

/// Marking a slot before the header's marks it in the list.
pub proof fn lemma_mark_within(low: Seq<bool>, beyond: bool, header: u64, slot: u64)
    requires
        beyond ==> low.len() <= header && slot < header,
    ensures
        mark_slot(slot_flags(low, beyond, header), slot) == slot_flags(
            mark_slot(low, slot),
            beyond,
            header,
        ),
{
    assert(mark_slot(slot_flags(low, beyond, header), slot) =~= slot_flags(
        mark_slot(low, slot),
        beyond,
        header,
    ));
}

/// Marking the header's slot, beyond the list, is the word on it.
pub proof fn lemma_mark_header(low: Seq<bool>, header: u64)
    requires
        low.len() <= header,
    ensures
        mark_slot(low, header) == slot_flags(low, true, header),
{
    assert(mark_slot(low, header) =~= slot_flags(low, true, header));
}

impl StateView {
    /// The tally before any vote of a block is counted.
    pub open spec fn tally(self) -> VoteTally {
        VoteTally {
            justifications: self.ledger(),
            latest_justified: self.latest_justified,
            latest_finalized: self.latest_finalized,
            justified_slots: self.justified_slots,
        }
    }

    /// Whether a vote counts: its source is justified and its target is not
    /// yet; the history holds the source's root for the source's slot; it
    /// holds the target's root for the target's slot, or the target is the
    /// latest header; the target lies after the source; and the target's slot
    /// may be justified after the slot finalized so far. These six decide,
    /// and nothing else does.
    ///
    /// A target before the finalized slot does not count: a vote is never
    /// fatal, so such a vote is passed over like any other that fails a
    /// condition.
    pub open spec fn vote_is_valid(self, tally: VoteTally, vote: Vote) -> bool {
        &&& slot_flag(tally.justified_slots, vote.source.slot.0)
        &&& !slot_flag(tally.justified_slots, vote.target.slot.0)
        &&& slot_root_is(self.historical_block_hashes, vote.source.slot.0, vote.source.root)
        &&& (slot_root_is(self.historical_block_hashes, vote.target.slot.0, vote.target.root) || (
        vote.target.slot == self.latest_block_header.slot && vote.target.root@
            == self.latest_block_header.tree_root()))
        &&& vote.target.slot.0 > vote.source.slot.0
        &&& justifiable_after(vote.target.slot.0, tally.latest_finalized.slot.0)
    }

    /// The tally after one more vote.
    ///
    /// A vote that does not count changes nothing. Every vote that counts is
    /// recorded for its target, whatever the tally holds by then: what a
    /// state can keep is looked at once, when the votes of the block are
    /// done (see [`StateView::process_attestations`]). Where the vote is a
    /// new vote and brings the target to two thirds of the validators, the
    /// target is justified: it becomes the latest justified checkpoint, its
    /// slot is marked, its flags are dropped, and the vote's source is
    /// finalized if no slot between source and target could still have been
    /// justified.
    pub open spec fn apply_vote(self, tally: VoteTally, vote: Vote) -> VoteTally {
        let n = self.config.num_validators;
        let root = vote.target.root;
        let voter = vote.validator_id.0;
        if !self.vote_is_valid(tally, vote) {
            tally
        } else {
            let recorded = with_vote(tally.justifications, root, voter, n as nat);
            if vote_is_new(tally.justifications, root, voter, n as nat) && has_supermajority(
                recorded,
                root,
                n,
            ) {
                VoteTally {
                    justifications: recorded.remove(root),
                    latest_justified: vote.target,
                    latest_finalized: if finalizable(
                        vote.source.slot.0,
                        vote.target.slot.0,
                        tally.latest_finalized.slot.0,
                    ) {
                        vote.source
                    } else {
                        tally.latest_finalized
                    },
                    justified_slots: mark_slot(tally.justified_slots, vote.target.slot.0),
                }
            } else {
                VoteTally { justifications: recorded, ..tally }
            }
        }
    }

    /// The tally after `votes`, counted in their order.
    pub open spec fn fold_votes(self, votes: Seq<SignedVote>) -> VoteTally
        decreases votes.len(),
    {
        if votes.len() == 0 {
            self.tally()
        } else {
            self.apply_vote(self.fold_votes(votes.drop_last()), votes.last().data)
        }
    }

    /// The state after the attestations of a block: the tally after the
    /// votes, written back. The mapping of votes is flattened, and the flags
    /// of the slots are stored, as far as the state can keep them: a list
    /// beyond its capacity is dropped whole.
    pub open spec fn process_attestations(self, votes: Seq<SignedVote>) -> StateView {
        let tally = self.fold_votes(votes);
        StateView {
            latest_justified: tally.latest_justified,
            latest_finalized: tally.latest_finalized,
            justified_slots: kept(tally.justified_slots, HISTORY_LIMIT as nat),
            ..self.with_justifications(tally.justifications)
        }
    }
}

impl State {
    /// Applies the operations of a block's body: its attestations.
    pub fn process_operations(&self, body: &BlockBody) -> (post: State)
        requires
            self@.wf(),
        ensures
            post@ == self@.process_attestations(body@),
            post@.wf(),
    {
        self.process_attestations(&body.attestations)
    }

    /// Counts the votes of a block, in their order.
    ///
    /// A vote that does not count is passed over: it never fails the block.
    /// Each vote that counts sets its voter's flag for its target, and the
    /// vote that brings a target to two thirds of the validators justifies
    /// it, and may finalize its source: the votes that follow are judged
    /// against what the votes before them have justified and finalized.
    ///
    /// No vote is turned away for want of room. What the state can keep is
    /// looked at once, when all votes are counted: the votes in progress and
    /// the flags of the slots are each stored whole, or, where they are more
    /// than their list holds, not at all.
    pub fn process_attestations(&self, attestations: &Vec<SignedVote>) -> (post: State)
        requires
            self@.wf(),
        ensures
            post@ == self@.process_attestations(attestations@),
            post@.wf(),
    {
        let mut justifications = self.get_justifications();
        let mut latest_justified = self.latest_justified;
        let mut latest_finalized = self.latest_finalized;
        let mut justified_slots = copy_flags(&self.justified_slots);
        // a target beyond the flags that a state keeps can only be the latest
        // header: its flag is held here, not in a list that long
        let mut header_is_justified = false;
        let header_slot = self.latest_block_header.slot;
        let latest_header_root = self.latest_block_header.hash_tree_root();
        let num_validators = self.config.num_validators;
        let limit = num_validators as usize;

        proof {
            lemma_assoc_dom(justifications.roots@, justifications.vote_seqs());
            lemma_rows_of(justifications, limit as nat);
            assert(attestations@.take(0) =~= Seq::<SignedVote>::empty());
        }
        let mut i: usize = 0;
        while i < attestations.len()
            invariant
                i <= attestations@.len(),
                self@.wf(),
                num_validators == self.config.num_validators,
                limit == num_validators,
                latest_header_root@ == self.latest_block_header.tree_root(),
                justifications.wf(),
                uniform_rows(justifications@, limit as nat),
                header_slot == self.latest_block_header.slot,
                justified_slots@.len() <= HISTORY_LIMIT,
                header_is_justified ==> header_slot.0 >= HISTORY_LIMIT,
                self@.fold_votes(attestations@.take(i as int)) == (VoteTally {
                    justifications: justifications@,
                    latest_justified,
                    latest_finalized,
                    justified_slots: slot_flags(
                        justified_slots@,
                        header_is_justified,
                        header_slot.0,
                    ),
                }),
            decreases attestations@.len() - i,
        {
            let vote = attestations[i].data;
            let ghost before = self@.fold_votes(attestations@.take(i as int));
            proof {
                assert(attestations@.take(i + 1).drop_last() =~= attestations@.take(i as int));
                assert(attestations@.take(i + 1).last() == attestations@[i as int]);
                lemma_assoc_dom(justifications.roots@, justifications.vote_seqs());
            }
            let target_root = vote.target.root;

            let source_is_justified = slot_is_flagged(
                &justified_slots,
                header_is_justified,
                header_slot,
                vote.source.slot,
            );
            let target_already_justified = slot_is_flagged(
                &justified_slots,
                header_is_justified,
                header_slot,
                vote.target.slot,
            );
            let source_root_matches_history = slot_has_root(
                &self.historical_block_hashes,
                vote.source.slot,
                &vote.source.root,
            );
            let target_root_matches_history = slot_has_root(
                &self.historical_block_hashes,
                vote.target.slot,
                &target_root,
            );
            let target_matches_latest_header = vote.target.slot.0
                == self.latest_block_header.slot.0 && target_root == latest_header_root;
            proof {
                if target_root@ == latest_header_root@ {
                    lemma_bytes32_ext(target_root, latest_header_root);
                }
            }
            let target_root_is_valid = target_root_matches_history
                || target_matches_latest_header;
            let target_is_after_source = vote.target.slot.0 > vote.source.slot.0;
            let target_is_justifiable = vote.target.slot.is_justifiable_at(latest_finalized.slot);

            let is_valid_vote = source_is_justified && !target_already_justified
                && source_root_matches_history && target_root_is_valid && target_is_after_source
                && target_is_justifiable;
            assert(is_valid_vote == self@.vote_is_valid(before, vote));

            if is_valid_vote {
                let is_new = justifications.record_vote(
                    target_root,
                    vote.validator_id.0,
                    num_validators,
                );
                if is_new && justifications.is_justified(&target_root, num_validators) {
                    latest_justified = vote.target;
                    if vote.target.slot.0 < HISTORY_LIMIT as u64 {
                        proof {
                            lemma_mark_within(
                                justified_slots@,
                                header_is_justified,
                                header_slot.0,
                                vote.target.slot.0,
                            );
                        }
                        set_slot_flag(&mut justified_slots, vote.target.slot);
                    } else {
                        proof {
                            // the history is too short to hold this target
                            assert(vote.target.slot == header_slot);
                            lemma_slot_flags_read(
                                justified_slots@,
                                header_is_justified,
                                header_slot.0,
                                header_slot.0,
                            );
                            assert(!header_is_justified);
                            lemma_mark_header(justified_slots@, header_slot.0);
                        }
                        header_is_justified = true;
                    }
                    justifications.remove(&target_root);
                    if is_finalizable(vote.source.slot, vote.target.slot, latest_finalized.slot) {
                        latest_finalized = vote.source;
                    }
                }
                proof {
                    lemma_assoc_dom(justifications.roots@, justifications.vote_seqs());
                }
            }
            i += 1;
        }
        proof {
            assert(attestations@.take(attestations@.len() as int) =~= attestations@);
            lemma_rows_of(justifications, limit as nat);
            lemma_assoc_dom(justifications.roots@, justifications.vote_seqs());
        }
        let mut new_state = self.clone().with_justifications(justifications);
        new_state.latest_justified = latest_justified;
        new_state.latest_finalized = latest_finalized;
        new_state.justified_slots = if header_is_justified {
            // flags up to the header's slot are more than a state keeps
            Vec::new()
        } else {
            justified_slots
        };
        new_state
    }
}

/// Whether no slot strictly between `source` and `target` may be justified
/// after `finalized`.
pub fn is_finalizable(source: Slot, target: Slot, finalized: Slot) -> (r: bool)
    ensures
        r == finalizable(source.0, target.0, finalized.0),
{
    if source.0 >= target.0 {
        return true;
    }
    let mut s: u64 = source.0 + 1;
    while s < target.0
        invariant
            source.0 < s <= target.0,
            forall|t: u64| source.0 < t < s ==> !#[trigger] justifiable_after(t, finalized.0),
        decreases target.0 - s,
    {
        if Slot(s).is_justifiable_at(finalized) {
            return false;
        }
        s += 1;
    }
    true
}

/// Whether `slot` has a flag, and the flag is set: in `flags`, or, beyond
/// them, by the word on the latest header's slot.
fn slot_is_flagged(flags: &Vec<bool>, beyond: bool, header: Slot, slot: Slot) -> (r: bool)
    requires
        beyond ==> flags@.len() <= header.0,
    ensures
        r == slot_flag(slot_flags(flags@, beyond, header.0), slot.0),
{
    proof {
        lemma_slot_flags_read(flags@, beyond, header.0, slot.0);
    }
    if slot.0 < flags.len() as u64 {
        flags[slot.0 as usize]
    } else {
        beyond && slot.0 == header.0
    }
}

/// Whether `hashes` holds `root` for `slot`.
fn slot_has_root(hashes: &Vec<Bytes32>, slot: Slot, root: &Bytes32) -> (r: bool)
    ensures
        r == slot_root_is(hashes@, slot.0, *root),
{
    slot.0 < hashes.len() as u64 && hashes[slot.0 as usize] == *root
}

/// Sets the flag of `slot`, after as many unset flags as it takes to reach it.
fn set_slot_flag(flags: &mut Vec<bool>, slot: Slot)
    requires
        slot.0 < HISTORY_LIMIT,
    ensures
        final(flags)@ == mark_slot(old(flags)@, slot.0),
        final(flags)@.len() == if old(flags)@.len() <= slot.0 {
            slot.0 + 1
        } else {
            old(flags)@.len() as int
        },
{
    let at = slot.0 as usize;
    while flags.len() <= at
        invariant
            at == slot.0,
            old(flags)@.len() <= flags@.len(),
            old(flags)@.len() <= at ==> flags@.len() <= at + 1,
            old(flags)@.len() > at ==> flags@ == old(flags)@,
            flags@ == old(flags)@ + Seq::new(
                (flags@.len() - old(flags)@.len()) as nat,
                |i: int| false,
            ),
        decreases at + 1 - flags@.len(),
    {
        let ghost before = flags@;
        flags.push(false);
        assert(flags@ =~= old(flags)@ + Seq::new(
            (flags@.len() - old(flags)@.len()) as nat,
            |i: int| false,
        ));
    }
    assert(old(flags)@.len() > at ==> old(flags)@ =~= old(flags)@ + Seq::new(
        0,
        |i: int| false,
    ));
    flags[at] = true;
}

/// Counting a vote is idempotent: the same vote counted a second time,
/// right after the first, changes nothing more.
pub proof fn lemma_vote_counts_once(s: StateView, tally: VoteTally, vote: Vote)
    requires
        tally.justifications.dom().finite(),
        uniform_rows(tally.justifications, s.config.num_validators as nat),
    ensures
        s.apply_vote(s.apply_vote(tally, vote), vote) == s.apply_vote(tally, vote),
        uniform_rows(
            s.apply_vote(tally, vote).justifications,
            s.config.num_validators as nat,
        ),
{
    let n = s.config.num_validators;
    let root = vote.target.root;
    let voter = vote.validator_id.0;
    let once = s.apply_vote(tally, vote);
    if s.vote_is_valid(tally, vote) {
        lemma_record_vote_once(tally.justifications, root, voter, n as nat);
        let recorded = with_vote(tally.justifications, root, voter, n as nat);
        if vote_is_new(tally.justifications, root, voter, n as nat) && has_supermajority(
            recorded,
            root,
            n,
        ) {
            // the target's slot is marked now, and the vote no longer counts
            assert(slot_flag(once.justified_slots, vote.target.slot.0));
        }
    }
}

/// A slot that is marked as justified stays marked, whatever vote is
/// counted next.
pub proof fn lemma_justified_slots_stay(s: StateView, tally: VoteTally, vote: Vote, slot: u64)
    requires
        slot_flag(tally.justified_slots, slot),
    ensures
        slot_flag(s.apply_vote(tally, vote).justified_slots, slot),
{
}

/// What the vote that justifies its target changes: the target becomes the
/// latest justified checkpoint, its slot is marked, and its root has no
/// flags any more.
pub proof fn lemma_justification(s: StateView, tally: VoteTally, vote: Vote)
    requires
        s.vote_is_valid(tally, vote),
        s.apply_vote(tally, vote).latest_justified != tally.latest_justified,
    ensures
        s.apply_vote(tally, vote).latest_justified == vote.target,
        slot_flag(s.apply_vote(tally, vote).justified_slots, vote.target.slot.0),
        !s.apply_vote(tally, vote).justifications.contains_key(vote.target.root),
{
}

/// Votes of which none counts leave the tally as it was.
pub proof fn lemma_rejected_votes_fold(s: StateView, votes: Seq<SignedVote>)
    requires
        forall|i: int|
            0 <= i < votes.len() ==> !s.vote_is_valid(s.tally(), (#[trigger] votes[i]).data),
    ensures
        s.fold_votes(votes) == s.tally(),
    decreases votes.len(),
{
    if votes.len() > 0 {
        assert forall|i: int| 0 <= i < votes.drop_last().len() implies !s.vote_is_valid(
            s.tally(),
            (#[trigger] votes.drop_last()[i]).data,
        ) by {
            assert(votes.drop_last()[i] == votes[i]);
        }
        lemma_rejected_votes_fold(s, votes.drop_last());
        assert(votes.last() == votes[votes.len() - 1]);
    }
}

/// A block whose votes do not count, or that carries none, leaves a
/// well-formed state as it was: votes are passed over, they never fail a
/// block.
pub proof fn lemma_rejected_votes_change_nothing(s: StateView, votes: Seq<SignedVote>)
    requires
        s.wf(),
        forall|i: int|
            0 <= i < votes.len() ==> !s.vote_is_valid(s.tally(), (#[trigger] votes[i]).data),
    ensures
        s.process_attestations(votes) == s,
{
    lemma_rejected_votes_fold(s, votes);
    lemma_ledger_round_trip(s);
}

/// Counting votes keeps the mapping of votes finite.
pub proof fn lemma_votes_keep_finite(s: StateView, votes: Seq<SignedVote>)
    requires
        s.wf(),
    ensures
        s.fold_votes(votes).justifications.dom().finite(),
    decreases votes.len(),
{
    if votes.len() == 0 {
        lemma_ledger_round_trip(s);
        lemma_assoc_dom(
            s.justifications_roots,
            Seq::new(
                s.justifications_roots.len(),
                |i: int|
                    vote_chunk(
                        s.justifications_validators,
                        s.config.num_validators as nat,
                        i,
                    ),
            ),
        );
    } else {
        lemma_votes_keep_finite(s, votes.drop_last());
    }
}

/// The attestations of a block lead from a well-formed state to a
/// well-formed state.
pub proof fn lemma_attestations_keep_wf(s: StateView, votes: Seq<SignedVote>)
    requires
        s.wf(),
    ensures
        s.process_attestations(votes).wf(),
{
    lemma_votes_keep_finite(s, votes);
    let tally = s.fold_votes(votes);
    lemma_with_justifications_wf(s, tally.justifications);
}

/// The flags of a target for which `votes` were cast, and no other: the
/// flag of each voter is set.
pub open spec fn voted(votes: Seq<SignedVote>, n: nat) -> Seq<bool>
    decreases votes.len(),
{
    if votes.len() == 0 {
        no_votes(n)
    } else {
        voted(votes.drop_last(), n).update(votes.last().data.validator_id.0 as int, true)
    }
}

/// The votes are votes from `source` to `target`, by validators of the
/// registry of whom none votes twice, and such a vote counts on the state as
/// it stands.
pub open spec fn votes_for(
    s: StateView,
    votes: Seq<SignedVote>,
    source: Checkpoint,
    target: Checkpoint,
) -> bool {
    &&& forall|i: int|
        0 <= i < votes.len() ==> {
            &&& (#[trigger] votes[i]).data.source == source
            &&& votes[i].data.target == target
            &&& votes[i].data.validator_id.0 < s.config.num_validators
            &&& s.vote_is_valid(s.tally(), votes[i].data)
        }
    &&& forall|i: int, j: int|
        0 <= i < j < votes.len() ==> (#[trigger] votes[i]).data.validator_id != (
        #[trigger] votes[j]).data.validator_id
}

/// Votes by different validators set as many flags as there are votes: the
/// flags of the voters, and no other.
pub proof fn lemma_voted(votes: Seq<SignedVote>, n: nat)
    requires
        forall|i: int| 0 <= i < votes.len() ==> (#[trigger] votes[i]).data.validator_id.0 < n,
        forall|i: int, j: int|
            0 <= i < j < votes.len() ==> (#[trigger] votes[i]).data.validator_id != (
            #[trigger] votes[j]).data.validator_id,
    ensures
        voted(votes, n).len() == n,
        count_true(voted(votes, n)) == votes.len(),
        forall|v: int|
            0 <= v < n ==> (#[trigger] voted(votes, n)[v] <==> exists|i: int|
                0 <= i < votes.len() && (#[trigger] votes[i]).data.validator_id.0 == v),
    decreases votes.len(),
{
    if votes.len() == 0 {
        lemma_count_no_votes(n);
    } else {
        let front = votes.drop_last();
        let voter = votes.last().data.validator_id.0 as int;
        assert forall|i: int| 0 <= i < front.len() implies (#[trigger] front[i]) == votes[i] by {}
        lemma_voted(front, n);
        assert(votes.last() == votes[votes.len() - 1]);
        // the last voter has not voted before
        if voted(front, n)[voter] {
            let i = choose|i: int|
                0 <= i < front.len() && (#[trigger] front[i]).data.validator_id.0 == voter;
            assert(votes[i].data.validator_id != votes[votes.len() - 1].data.validator_id);
        }
        lemma_count_one_more(voted(front, n), voter);
        assert forall|v: int| 0 <= v < n implies (#[trigger] voted(votes, n)[v] <==> exists|
            i: int,
        | 0 <= i < votes.len() && (#[trigger] votes[i]).data.validator_id.0 == v) by {
            if voted(votes, n)[v] {
                if v == voter {
                    assert(votes[votes.len() - 1].data.validator_id.0 == v);
                } else {
                    let i = choose|i: int|
                        0 <= i < front.len() && (#[trigger] front[i]).data.validator_id.0 == v;
                    assert(votes[i].data.validator_id.0 == v);
                }
            }
            if exists|i: int|
                0 <= i < votes.len() && (#[trigger] votes[i]).data.validator_id.0 == v {
                let i = choose|i: int|
                    0 <= i < votes.len() && (#[trigger] votes[i]).data.validator_id.0 == v;
                if i < front.len() {
                    assert(front[i].data.validator_id.0 == v);
                }
            }
        }
    }
}

/// The threshold. Votes of `k` different validators for one target, from
/// one source, each of which counts on the state as it stands, for a target
/// that has no votes yet: the target is justified exactly when
/// `3 * k >= 2 * n`, however many other roots have votes in progress. Below
/// that, nothing is justified or finalized, the marked slots are as they
/// were, and the target has the flags of its `k` voters and no other.
pub proof fn lemma_threshold(
    s: StateView,
    votes: Seq<SignedVote>,
    source: Checkpoint,
    target: Checkpoint,
)
    requires
        votes_for(s, votes, source, target),
        !s.ledger().contains_key(target.root),
    ensures
        ({
            let n = s.config.num_validators;
            let k = votes.len();
            let tally = s.fold_votes(votes);
            &&& k > 0 ==> (slot_flag(tally.justified_slots, target.slot.0) <==> 3 * k >= 2 * n)
            &&& k > 0 && 3 * k >= 2 * n ==> {
                &&& tally.latest_justified == target
                &&& tally.justified_slots == mark_slot(s.justified_slots, target.slot.0)
                &&& tally.latest_finalized == if finalizable(
                    source.slot.0,
                    target.slot.0,
                    s.latest_finalized.slot.0,
                ) {
                    source
                } else {
                    s.latest_finalized
                }
                &&& !tally.justifications.contains_key(target.root)
            }
            &&& k > 0 && 3 * k < 2 * n ==> tally == (VoteTally {
                justifications: s.ledger().insert(target.root, voted(votes, n as nat)),
                ..s.tally()
            })
            &&& k == 0 ==> tally == s.tally()
        }),
    decreases votes.len(),
{
    let n = s.config.num_validators;
    let k = votes.len();
    if k > 0 {
        let front = votes.drop_last();
        let vote = votes.last().data;
        assert(votes.last() == votes[k - 1]);
        assert forall|i: int| 0 <= i < front.len() implies (#[trigger] front[i]) == votes[i] by {}
        lemma_threshold(s, front, source, target);
        lemma_voted(front, n as nat);
        lemma_voted(votes, n as nat);
        let before = s.fold_votes(front);
        assert(s.vote_is_valid(s.tally(), vote));
        if front.len() > 0 && 3 * front.len() >= 2 * n {
            // the target is justified by now, and takes no more votes
            assert(!s.vote_is_valid(before, vote));
        } else {
            // the vote counts as on the state: nothing is justified yet
            assert(s.vote_is_valid(before, vote));
            let voter = vote.validator_id.0;
            assert(flags_of(before.justifications, target.root, n as nat) == voted(
                front,
                n as nat,
            ));
            if voted(front, n as nat)[voter as int] {
                let i = choose|i: int|
                    0 <= i < front.len() && (#[trigger] front[i]).data.validator_id.0 == voter;
                assert(votes[i].data.validator_id != votes[k - 1].data.validator_id);
            }
            assert(vote_is_new(before.justifications, target.root, voter, n as nat));
            let recorded = with_vote(before.justifications, target.root, voter, n as nat);
            assert(recorded =~= s.ledger().insert(target.root, voted(votes, n as nat)));
            assert(has_supermajority(recorded, target.root, n) <==> 3 * k >= 2 * n);
        }
    }
}

/// The threshold, seen in the state that comes out. With two thirds of the
/// validators the target is the latest justified checkpoint, and its slot is
/// marked where a state keeps a flag for it. Below two thirds the
/// checkpoints and the marked slots are as they were.
pub proof fn lemma_threshold_in_state(
    s: StateView,
    votes: Seq<SignedVote>,
    source: Checkpoint,
    target: Checkpoint,
)
    requires
        s.wf(),
        votes.len() > 0,
        votes_for(s, votes, source, target),
        !s.ledger().contains_key(target.root),
    ensures
        ({
            let n = s.config.num_validators;
            let k = votes.len();
            let post = s.process_attestations(votes);
            &&& 3 * k >= 2 * n ==> post.latest_justified == target
            &&& target.slot.0 < HISTORY_LIMIT ==> (slot_flag(post.justified_slots, target.slot.0)
                <==> 3 * k >= 2 * n)
            &&& 3 * k < 2 * n ==> {
                &&& post.latest_justified == s.latest_justified
                &&& post.latest_finalized == s.latest_finalized
                &&& post.justified_slots == s.justified_slots
                &&& s.justifications_roots.len() < JUSTIFICATION_ROOTS_LIMIT ==> post.ledger()
                    == s.ledger().insert(target.root, voted(votes, n as nat))
            }
        }),
{
    let n = s.config.num_validators;
    lemma_threshold(s, votes, source, target);
    assert(s.vote_is_valid(s.tally(), votes[0].data));
    if 3 * votes.len() < 2 * n && s.justifications_roots.len() < JUSTIFICATION_ROOTS_LIMIT {
        let after = s.ledger().insert(target.root, voted(votes, n as nat));
        lemma_ledger_round_trip(s);
        lemma_votes_keep_finite(s, Seq::empty());
        lemma_voted(votes, n as nat);
        assert(after.len() == s.justifications_roots.len() + 1);
        assert(after.len() * n <= 8192 * 65536) by (nonlinear_arith)
            requires
                after.len() <= 8192,
                n <= 65536,
        ;
        assert(uniform_rows(after, n as nat));
        lemma_with_justifications_ledger(s, after);
    }
}

} // verus!
