//! The votes in progress: which validators have voted for which target.
use crate::ascending::{
    assoc_map, lemma_absent, lemma_adjacent_ascending, lemma_assoc_dom, lemma_assoc_insert,
    lemma_assoc_remove, lemma_assoc_update, lemma_index_of, lemma_precede_total,
    strictly_ascending,
};
use crate::state::copy_flags;
use crate::types::{bytes_precede, lemma_precede_transitive, Bytes32};
use vstd::prelude::*;

verus! {

/// Every root of the mapping has `n` flags.
pub open spec fn uniform_rows(votes: Map<Bytes32, Seq<bool>>, n: nat) -> bool {
    forall|r: Bytes32| votes.contains_key(r) ==> (#[trigger] votes[r]).len() == n
}

/// The number of flags that are set.
pub open spec fn count_true(bits: Seq<bool>) -> nat
    decreases bits.len(),
{
    if bits.len() == 0 {
        0
    } else {
        count_true(bits.drop_last()) + if bits.last() {
            1nat
        } else {
            0nat
        }
    }
}

/// At least two thirds of the validators.
pub open spec fn is_supermajority(count: nat, num_validators: u64) -> bool {
    3 * count >= 2 * num_validators
}

/// One unset flag for each of `n` validators.
pub open spec fn no_votes(n: nat) -> Seq<bool> {
    Seq::new(n, |i: int| false)
}

/// The flags of `root`: those it has, or one unset flag for each of `n`
/// validators where it has none yet.
pub open spec fn flags_of(votes: Map<Bytes32, Seq<bool>>, root: Bytes32, n: nat) -> Seq<bool> {
    if votes.contains_key(root) {
        votes[root]
    } else {
        no_votes(n)
    }
}

/// Whether a vote of `voter` for `root` is new: the voter is one of the `n`
/// validators, and has no flag set for the root.
pub open spec fn vote_is_new(
    votes: Map<Bytes32, Seq<bool>>,
    root: Bytes32,
    voter: u64,
    n: nat,
) -> bool {
    voter < n && !flags_of(votes, root, n)[voter as int]
}

/// The votes with the vote of `voter` for `root` recorded: the root has
/// flags, and the voter's flag is set if the voter is one of the `n`
/// validators.
pub open spec fn with_vote(
    votes: Map<Bytes32, Seq<bool>>,
    root: Bytes32,
    voter: u64,
    n: nat,
) -> Map<Bytes32, Seq<bool>> {
    votes.insert(
        root,
        if vote_is_new(votes, root, voter, n) {
            flags_of(votes, root, n).update(voter as int, true)
        } else {
            flags_of(votes, root, n)
        },
    )
}

/// Whether `root` has the votes of at least two thirds of the validators.
pub open spec fn has_supermajority(
    votes: Map<Bytes32, Seq<bool>>,
    root: Bytes32,
    num_validators: u64,
) -> bool {
    votes.contains_key(root) && is_supermajority(count_true(votes[root]), num_validators)
}

/// Recording a vote is idempotent: recorded a second time, it is no new
/// vote, and changes nothing.
pub proof fn lemma_record_vote_once(
    votes: Map<Bytes32, Seq<bool>>,
    root: Bytes32,
    voter: u64,
    n: nat,
)
    requires
        uniform_rows(votes, n),
    ensures
        !vote_is_new(with_vote(votes, root, voter, n), root, voter, n),
        with_vote(with_vote(votes, root, voter, n), root, voter, n) == with_vote(
            votes,
            root,
            voter,
            n,
        ),
        uniform_rows(with_vote(votes, root, voter, n), n),
{
    let once = with_vote(votes, root, voter, n);
    assert(with_vote(once, root, voter, n) =~= once);
}

/// Votes in progress: for each target root that validators have voted for
/// and that is not yet justified, one flag per validator. The roots are kept
/// in ascending order, with the flags of a root at the root's place.
#[derive(Clone, Debug, PartialEq, Eq, Default)]
pub struct Justifications {
    pub roots: Vec<Bytes32>,
    pub votes: Vec<Vec<bool>>,
}

impl View for Justifications {
    type V = Map<Bytes32, Seq<bool>>;

    open spec fn view(&self) -> Map<Bytes32, Seq<bool>> {
        assoc_map(self.roots@, self.vote_seqs())
    }
}

impl Justifications {
    /// The flags, in the order of the roots.
    pub open spec fn vote_seqs(&self) -> Seq<Seq<bool>> {
        Seq::new(self.votes@.len(), |i: int| self.votes@[i]@)
    }

    /// Every root has `n` flags.
    pub open spec fn rows_of(&self, n: nat) -> bool {
        forall|i: int| 0 <= i < self.votes@.len() ==> (#[trigger] self.votes@[i])@.len() == n
    }

    /// There is one list of flags for each root, and the roots ascend.
    pub open spec fn wf(&self) -> bool {
        self.roots@.len() == self.votes@.len() && strictly_ascending(self.roots@)
    }

    /// Whether the fields hold a well-formed value.
    pub fn is_well_formed(&self) -> (r: bool)
        ensures
            r == self.wf(),
    {
        if self.roots.len() != self.votes.len() {
            return false;
        }
        let n = self.roots.len();
        let mut i: usize = 1;
        while i < n
            invariant
                1 <= i,
                n == self.roots@.len(),
                forall|k: int|
                    0 <= k < i - 1 ==> bytes_precede(
                        #[trigger] self.roots@[k]@,
                        self.roots@[k + 1]@,
                    ),
            decreases n - i,
        {
            if !self.roots[i - 1].precedes(&self.roots[i]) {
                assert(!strictly_ascending(self.roots@)) by {
                    if strictly_ascending(self.roots@) {
                        assert(bytes_precede(self.roots@[i - 1]@, self.roots@[i as int]@));
                    }
                }
                return false;
            }
            i += 1;
        }
        proof {
            lemma_adjacent_ascending(self.roots@);
        }
        true
    }

    /// No votes.
    pub fn new() -> (empty: Justifications)
        ensures
            empty.wf(),
            empty@ == Map::<Bytes32, Seq<bool>>::empty(),
    {
        let empty = Justifications { roots: Vec::new(), votes: Vec::new() };
        assert(empty@ =~= Map::<Bytes32, Seq<bool>>::empty());
        empty
    }

    /// The number of roots with votes.
    pub fn len(&self) -> (n: usize)
        requires
            self.wf(),
        ensures
            n == self@.len(),
            n == self.roots@.len(),
    {
        proof {
            lemma_assoc_dom(self.roots@, self.vote_seqs());
        }
        self.roots.len()
    }

    /// Looks for `root`: whether it is there, and the place where it stands
    /// or would have to stand.
    pub fn search(&self, root: &Bytes32) -> (found: (bool, usize))
        requires
            self.wf(),
        ensures
            found.1 <= self.roots@.len(),
            found.0 == self@.contains_key(*root),
            found.0 ==> found.1 < self.roots@.len() && self.roots@[found.1 as int] == *root,
            forall|i: int| 0 <= i < found.1 ==> bytes_precede(#[trigger] self.roots@[i]@, root@),
            !found.0 ==> forall|i: int|
                found.1 <= i < self.roots@.len() ==> bytes_precede(
                    root@,
                    #[trigger] self.roots@[i]@,
                ),
    {
        let n = self.roots.len();
        let mut i: usize = 0;
        while i < n
            invariant
                i <= n,
                n == self.roots@.len(),
                self.wf(),
                forall|k: int| 0 <= k < i ==> bytes_precede(#[trigger] self.roots@[k]@, root@),
            decreases n - i,
        {
            if self.roots[i] == *root {
                assert(self.roots@.contains(*root));
                return (true, i);
            }
            if !self.roots[i].precedes(root) {
                proof {
                    lemma_precede_total(self.roots@[i as int], *root);
                    assert forall|k: int| i <= k < n implies bytes_precede(
                        root@,
                        #[trigger] self.roots@[k]@,
                    ) by {
                        if k > i {
                            assert(bytes_precede(self.roots@[i as int]@, self.roots@[k]@));
                            lemma_precede_transitive(
                                root@,
                                self.roots@[i as int]@,
                                self.roots@[k]@,
                            );
                        }
                    }
                    lemma_absent(self.roots@, *root, i as int);
                }
                return (false, i);
            }
            i += 1;
        }
        proof {
            lemma_absent(self.roots@, *root, n as int);
        }
        (false, n)
    }

    /// Whether `root` has votes.
    pub fn contains_key(&self, root: &Bytes32) -> (r: bool)
        requires
            self.wf(),
        ensures
            r == self@.contains_key(*root),
    {
        self.search(root).0
    }

    /// The flags of `root`, if it has votes.
    pub fn get(&self, root: &Bytes32) -> (r: Option<&Vec<bool>>)
        requires
            self.wf(),
        ensures
            r is Some == self@.contains_key(*root),
            r matches Some(bits) ==> bits@ == self@[*root],
    {
        let (found, at) = self.search(root);
        if found {
            proof {
                lemma_index_of(self.roots@, at as int);
            }
            Some(&self.votes[at])
        } else {
            None
        }
    }

    /// Gives `root` the flags `bits`, in place of those it had, if any.
    pub fn insert(&mut self, root: Bytes32, bits: Vec<bool>)
        requires
            old(self).wf(),
        ensures
            final(self).wf(),
            final(self)@ == old(self)@.insert(root, bits@),
    {
        let (found, at) = self.search(&root);
        let ghost roots0 = self.roots@;
        let ghost votes0 = self.vote_seqs();
        if found {
            self.votes[at] = bits;
            proof {
                assert(self.vote_seqs() =~= votes0.update(at as int, bits@));
                lemma_assoc_update(roots0, votes0, at as int, bits@);
            }
        } else {
            self.roots.insert(at, root);
            self.votes.insert(at, bits);
            proof {
                assert(self.vote_seqs() =~= votes0.insert(at as int, bits@));
                lemma_assoc_insert(roots0, votes0, at as int, root, bits@);
            }
        }
    }

    /// Takes `root` and its flags out, and returns the flags if there were any.
    pub fn remove(&mut self, root: &Bytes32) -> (r: Option<Vec<bool>>)
        requires
            old(self).wf(),
        ensures
            final(self).wf(),
            final(self)@ == old(self)@.remove(*root),
            r is Some == old(self)@.contains_key(*root),
            r matches Some(bits) ==> bits@ == old(self)@[*root],
    {
        let (found, at) = self.search(root);
        let ghost roots0 = self.roots@;
        let ghost votes0 = self.vote_seqs();
        if found {
            self.roots.remove(at);
            let bits = self.votes.remove(at);
            proof {
                assert(self.vote_seqs() =~= votes0.remove(at as int));
                lemma_assoc_remove(roots0, votes0, at as int);
                lemma_index_of(roots0, at as int);
            }
            Some(bits)
        } else {
            assert(self@ =~= old(self)@.remove(*root));
            None
        }
    }

    /// Records the vote of `voter_id` for `target_root`, and says whether it
    /// is a new vote. The root gets its flags if it had none. The flag of a
    /// voter who is not among the `num_validators` validators, or whose flag
    /// is set, is left as it is.
    pub fn record_vote(
        &mut self,
        target_root: Bytes32,
        validator_id: u64,
        num_validators: u64,
    ) -> (is_new: bool)
        requires
            old(self).wf(),
            uniform_rows(old(self)@, num_validators as nat),
            num_validators <= usize::MAX,
        ensures
            final(self).wf(),
            final(self)@ == with_vote(
                old(self)@,
                target_root,
                validator_id,
                num_validators as nat,
            ),
            is_new == vote_is_new(old(self)@, target_root, validator_id, num_validators as nat),
            uniform_rows(final(self)@, num_validators as nat),
    {
        let mut flags = match self.get(&target_root) {
            Some(existing) => copy_flags(existing),
            None => unset_flags(num_validators as usize),
        };
        let is_new = validator_id < num_validators && !flags[validator_id as usize];
        if is_new {
            flags[validator_id as usize] = true;
        }
        self.insert(target_root, flags);
        is_new
    }

    /// Whether `target_root` has the votes of at least two thirds of the
    /// `num_validators` validators.
    pub fn is_justified(&self, target_root: &Bytes32, num_validators: u64) -> (r: bool)
        requires
            self.wf(),
        ensures
            r == has_supermajority(self@, *target_root, num_validators),
    {
        match self.get(target_root) {
            Some(flags) => {
                let count = count_votes(flags);
                3 * (count as u128) >= 2 * (num_validators as u128)
            },
            None => false,
        }
    }
}

/// The number of flags that are set.
pub fn count_votes(bits: &Vec<bool>) -> (count: usize)
    ensures
        count == count_true(bits@),
        count <= bits@.len(),
{
    let mut count: usize = 0;
    let mut i: usize = 0;
    assert(bits@.take(0) =~= Seq::<bool>::empty());
    while i < bits.len()
        invariant
            i <= bits@.len(),
            count <= i,
            count == count_true(bits@.take(i as int)),
        decreases bits@.len() - i,
    {
        assert(bits@.take(i + 1).drop_last() =~= bits@.take(i as int));
        if bits[i] {
            count += 1;
        }
        i += 1;
    }
    assert(bits@.take(bits@.len() as int) =~= bits@);
    count
}

/// One unset flag for each of `n` validators.
fn unset_flags(n: usize) -> (bits: Vec<bool>)
    ensures
        bits@ == no_votes(n as nat),
{
    let mut bits: Vec<bool> = Vec::new();
    let mut i: usize = 0;
    while i < n
        invariant
            i <= n,
            bits@ == no_votes(i as nat),
        decreases n - i,
    {
        bits.push(false);
        i += 1;
        assert(bits@ =~= no_votes(i as nat));
    }
    bits
}

/// The lists of flags all have `n` flags where those of the mapping do.
pub proof fn lemma_rows_of(votes: Justifications, n: nat)
    requires
        votes.wf(),
    ensures
        votes.rows_of(n) == uniform_rows(votes@, n),
{
    lemma_assoc_dom(votes.roots@, votes.vote_seqs());
    if uniform_rows(votes@, n) {
        assert forall|i: int| 0 <= i < votes.votes@.len() implies (
        #[trigger] votes.votes@[i])@.len() == n by {
            assert(votes@.contains_key(votes.roots@[i]));
            assert(votes@[votes.roots@[i]] == votes.vote_seqs()[i]);
        }
    }
    if votes.rows_of(n) {
        assert forall|r: Bytes32| votes@.contains_key(r) implies (#[trigger] votes@[r]).len()
            == n by {
            let i = votes.roots@.index_of(r);
            lemma_index_of(votes.roots@, i);
            assert(votes@[r] == votes.vote_seqs()[i]);
        }
    }
}

/// No flag is set among unset flags.
pub proof fn lemma_count_no_votes(n: nat)
    ensures
        count_true(no_votes(n)) == 0,
    decreases n,
{
    if n > 0 {
        lemma_count_no_votes((n - 1) as nat);
        assert(no_votes(n).drop_last() =~= no_votes((n - 1) as nat));
    }
}

/// Setting a flag that was not set makes one more flag that is set.
pub proof fn lemma_count_one_more(bits: Seq<bool>, at: int)
    requires
        0 <= at < bits.len(),
        !bits[at],
    ensures
        count_true(bits.update(at, true)) == count_true(bits) + 1,
    decreases bits.len(),
{
    let marked = bits.update(at, true);
    if at == bits.len() - 1 {
        assert(marked.drop_last() =~= bits.drop_last());
    } else {
        lemma_count_one_more(bits.drop_last(), at);
        assert(marked.drop_last() =~= bits.drop_last().update(at, true));
    }
}

} // verus!
