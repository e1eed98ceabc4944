//! The votes in progress as a state keeps them: the roots in ascending
//! order, and the flags of all roots in one list.
use crate::ascending::{
    assoc_map, lemma_ascending_exists, lemma_ascending_no_duplicates, lemma_ascending_unique,
    lemma_assoc_dom, lemma_index_of, strictly_ascending,
};
use crate::justifications::{uniform_rows, Justifications};
use crate::state::{
    copy_digests, State, StateView, HISTORY_LIMIT, JUSTIFICATIONS_VALIDATORS_MAX,
    JUSTIFICATION_ROOTS_LIMIT, VALIDATOR_REGISTRY_LIMIT,
};
use crate::types::Bytes32;
use vstd::prelude::*;

verus! {

/// The flags of the `i`-th root in the flattened votes of `n` validators.
pub open spec fn vote_chunk(validators: Seq<bool>, n: nat, i: int) -> Seq<bool> {
    validators.subrange(i * n, (i + 1) * n)
}

/// The roots of a mapping of votes, in ascending order.
pub open spec fn sorted_roots(votes: Map<Bytes32, Seq<bool>>) -> Seq<Bytes32> {
    choose|roots: Seq<Bytes32>| strictly_ascending(roots) && roots.to_set() == votes.dom()
}

/// The flags of a mapping of votes for `n` validators, one root's after the
/// other's in the order of `roots`.
pub open spec fn flat_votes(votes: Map<Bytes32, Seq<bool>>, roots: Seq<Bytes32>, n: nat) -> Seq<
    bool,
> {
    Seq::new(roots.len() * n, |k: int| votes[roots[k / (n as int)]][k % (n as int)])
}

/// The flags of every root, one root's after the other's.
pub open spec fn concat_votes(votes: Seq<Seq<bool>>, n: nat) -> Seq<bool> {
    Seq::new(votes.len() * n, |k: int| votes[k / (n as int)][k % (n as int)])
}

impl StateView {
    /// The votes in progress, as a mapping from target root to flags.
    pub open spec fn ledger(self) -> Map<Bytes32, Seq<bool>> {
        assoc_map(
            self.justifications_roots,
            Seq::new(
                self.justifications_roots.len(),
                |i: int|
                    vote_chunk(
                        self.justifications_validators,
                        self.config.num_validators as nat,
                        i,
                    ),
            ),
        )
    }

    /// Whether a state of this configuration can keep a mapping of votes
    /// with `roots` roots: the roots and their flags are within the
    /// capacities.
    pub open spec fn can_keep(self, roots: nat) -> bool {
        roots <= JUSTIFICATION_ROOTS_LIMIT && roots * self.config.num_validators
            <= JUSTIFICATIONS_VALIDATORS_MAX
    }

    /// The state with the given mapping of votes for its flattened votes. A
    /// mapping with more roots or flags than the capacity is dropped whole.
    pub open spec fn with_justifications(self, votes: Map<Bytes32, Seq<bool>>) -> StateView {
        if self.can_keep(votes.len()) {
            StateView {
                justifications_roots: sorted_roots(votes),
                justifications_validators: flat_votes(
                    votes,
                    sorted_roots(votes),
                    self.config.num_validators as nat,
                ),
                ..self
            }
        } else {
            StateView {
                justifications_roots: Seq::empty(),
                justifications_validators: Seq::empty(),
                ..self
            }
        }
    }
}

impl State {
    /// The votes in progress, as a mapping from each target root to its
    /// flags, one flag per validator.
    pub fn get_justifications(&self) -> (map: Justifications)
        requires
            self@.wf(),
        ensures
            map.wf(),
            map@ == self@.ledger(),
            map.roots@ == self.justifications_roots@,
            map.rows_of(self.config.num_validators as nat),
    {
        let n = self.config.num_validators as usize;
        let count = self.justifications_roots.len();
        let roots = copy_digests(&self.justifications_roots);
        let mut votes: Vec<Vec<bool>> = Vec::new();
        let mut i: usize = 0;
        while i < count
            invariant
                i <= count,
                count == self.justifications_roots@.len(),
                n == self.config.num_validators,
                self@.wf(),
                votes@.len() == i,
                forall|k: int|
                    0 <= k < i ==> (#[trigger] votes@[k])@ == vote_chunk(
                        self.justifications_validators@,
                        n as nat,
                        k,
                    ),
            decreases count - i,
        {
            let mut row: Vec<bool> = Vec::new();
            let mut j: usize = 0;
            proof {
                assert(count * n == self.justifications_validators@.len());
                assert(i * n + n <= count * n) by (nonlinear_arith)
                    requires
                        i < count,
                        0 <= n,
                ;
                assert(count * n <= 8192 * 65536) by (nonlinear_arith)
                    requires
                        count <= 8192,
                        n <= 65536,
                ;
            }
            let start = i * n;
            while j < n
                invariant
                    j <= n,
                    i < count,
                    count == self.justifications_roots@.len(),
                    n == self.config.num_validators,
                    self@.wf(),
                    start == i * n,
                    start + n <= self.justifications_validators@.len(),
                    start + n <= 0x2000_0000,
                    row@ == self.justifications_validators@.subrange(
                        start as int,
                        start as int + j as int,
                    ),
                decreases n - j,
            {
                row.push(self.justifications_validators[start + j]);
                j += 1;
                assert(row@ =~= self.justifications_validators@.subrange(
                    start as int,
                    start as int + j as int,
                ));
            }
            proof {
                assert((i + 1) * n == i * n + n) by (nonlinear_arith);
            }
            votes.push(row);
            i += 1;
        }
        let map = Justifications { roots, votes };
        proof {
            assert(map.vote_seqs() =~= Seq::new(
                self.justifications_roots@.len(),
                |i: int|
                    vote_chunk(
                        self.justifications_validators@,
                        self.config.num_validators as nat,
                        i,
                    ),
            ));
            assert forall|k: int| 0 <= k < map.votes@.len() implies (
            #[trigger] map.votes@[k])@.len() == n by {
                if n > 0 {
                    lemma_place_in_row(k, 0, n as int, count as int);
                } else {
                    assert(k * n == 0 && (k + 1) * n == 0) by (nonlinear_arith)
                        requires
                            n == 0,
                    ;
                }
            }
        }
        map
    }

    /// The state with `map` for its votes in progress, flattened: the roots in
    /// ascending order, and the flags of each root in that order. A mapping
    /// with more roots or flags than a state can keep is dropped whole.
    pub fn with_justifications(self, map: Justifications) -> (post: State)
        requires
            map.wf(),
            map.rows_of(self.config.num_validators as nat),
        ensures
            post@ == self@.with_justifications(map@),
            self@.can_keep(map.roots@.len()) ==> post@.ledger() == map@,
            self@.wf() ==> post@.wf(),
    {
        let count = map.len();
        let fits = if count <= JUSTIFICATION_ROOTS_LIMIT {
            assert(count * self.config.num_validators <= 8192 * 0xffff_ffff_ffff_ffff)
                by (nonlinear_arith)
                requires
                    count <= 8192,
                    self.config.num_validators <= 0xffff_ffff_ffff_ffff,
            ;
            (count as u128) * (self.config.num_validators as u128)
                <= JUSTIFICATIONS_VALIDATORS_MAX as u128
        } else {
            false
        };
        let mut roots: Vec<Bytes32> = Vec::new();
        let mut flat: Vec<bool> = Vec::new();
        if fits && count > 0 {
            assert(self.config.num_validators <= count * self.config.num_validators)
                by (nonlinear_arith)
                requires
                    count > 0,
            ;
            let n = self.config.num_validators as usize;
            roots = copy_digests(&map.roots);
            let mut i: usize = 0;
            while i < count
                invariant
                    i <= count,
                    count == map.roots@.len(),
                    map.wf(),
                    map.rows_of(n as nat),
                    flat@.len() == i * n,
                    forall|k: int|
                        0 <= k < flat@.len() ==> #[trigger] flat@[k] == map.vote_seqs()[k / (
                        n as int)][k % (n as int)],
                decreases count - i,
            {
                let mut j: usize = 0;
                while j < n
                    invariant
                        j <= n,
                        i < count,
                        count == map.roots@.len(),
                        map.wf(),
                        map.rows_of(n as nat),
                        flat@.len() == i * n + j,
                        forall|k: int|
                            0 <= k < flat@.len() ==> #[trigger] flat@[k] == map.vote_seqs()[k / (
                            n as int)][k % (n as int)],
                    decreases n - j,
                {
                    proof {
                        lemma_place_in_row(i as int, j as int, n as int, count as int);
                    }
                    flat.push(map.votes[i][j]);
                    j += 1;
                }
                proof {
                    assert((i + 1) * n == i * n + n) by (nonlinear_arith);
                }
                i += 1;
            }
            proof {
                assert(flat@ =~= concat_votes(map.vote_seqs(), n as nat));
            }
        }
        let post = State {
            config: self.config,
            slot: self.slot,
            latest_block_header: self.latest_block_header,
            latest_justified: self.latest_justified,
            latest_finalized: self.latest_finalized,
            historical_block_hashes: self.historical_block_hashes,
            justified_slots: self.justified_slots,
            justifications_roots: roots,
            justifications_validators: flat,
        };
        proof {
            let n = self.config.num_validators as nat;
            assert(0 == 0 * n) by (nonlinear_arith);
            if fits {
                lemma_sorted_roots(map.roots@, map.vote_seqs());
                lemma_flat_votes(map.roots@, map.vote_seqs(), n);
                if count == 0 {
                    assert(roots@ =~= map.roots@);
                    assert(flat@ =~= concat_votes(map.vote_seqs(), n));
                }
                lemma_rows_are_chunks(map.vote_seqs(), n);
                assert(Seq::new(
                    post.justifications_roots@.len(),
                    |i: int| vote_chunk(post.justifications_validators@, n, i),
                ) =~= map.vote_seqs());
            }
        }
        post
    }
}

/// The place `k` of a list made of rows of `n` lies in row `k / n`, at
/// place `k % n` of it.
pub proof fn lemma_row_of(k: int, n: int, rows: int)
    requires
        0 <= k < rows * n,
        0 < n,
    ensures
        0 <= k / n < rows,
        0 <= k % n < n,
        k == (k / n) * n + k % n,
{
    vstd::arithmetic::div_mod::lemma_fundamental_div_mod(k, n);
    vstd::arithmetic::div_mod::lemma_mod_pos_bound(k, n);
    assert(0 <= k / n < rows) by (nonlinear_arith)
        requires
            0 <= k < rows * n,
            0 < n,
            k == n * (k / n) + (k % n),
            0 <= k % n < n,
    ;
    assert(n * (k / n) == (k / n) * n) by (nonlinear_arith);
}

/// The place `j` of row `i` is the place `i * n + j` of the whole.
pub proof fn lemma_place_in_row(i: int, j: int, n: int, rows: int)
    requires
        0 <= i < rows,
        0 <= j < n,
    ensures
        0 <= i * n + j < rows * n,
        (i * n + j) / n == i,
        (i * n + j) % n == j,
        (i + 1) * n == i * n + n,
        (i + 1) * n <= rows * n,
{
    assert(0 <= i * n + j < rows * n && (i + 1) * n == i * n + n && (i + 1) * n <= rows * n)
        by (nonlinear_arith)
        requires
            0 <= i < rows,
            0 <= j < n,
    ;
    vstd::arithmetic::div_mod::lemma_fundamental_div_mod_converse(i * n + j, n, i, j);
}

/// In rows of `n` flags each, one after the other, row `i` fills the places
/// from `i * n` up to `(i + 1) * n`.
pub proof fn lemma_rows_are_chunks(votes: Seq<Seq<bool>>, n: nat)
    requires
        forall|i: int| 0 <= i < votes.len() ==> (#[trigger] votes[i]).len() == n,
    ensures
        forall|i: int|
            0 <= i < votes.len() ==> vote_chunk(concat_votes(votes, n), n, i)
                == #[trigger] votes[i],
{
    assert forall|i: int| 0 <= i < votes.len() implies vote_chunk(concat_votes(votes, n), n, i)
        == #[trigger] votes[i] by {
        let c = vote_chunk(concat_votes(votes, n), n, i);
        if n > 0 {
            lemma_place_in_row(i, 0, n as int, votes.len() as int);
            assert(c.len() == n);
            assert forall|j: int| 0 <= j < n implies c[j] == votes[i][j] by {
                lemma_place_in_row(i, j, n as int, votes.len() as int);
            }
        } else {
            assert(i * n == 0 && (i + 1) * n == 0) by (nonlinear_arith)
                requires
                    n == 0,
            ;
        }
        assert(c =~= votes[i]);
    }
}

/// The ascending roots of the mapping of ascending roots are those roots.
pub proof fn lemma_sorted_roots(roots: Seq<Bytes32>, votes: Seq<Seq<bool>>)
    requires
        strictly_ascending(roots),
    ensures
        sorted_roots(assoc_map(roots, votes)) == roots,
{
    lemma_assoc_dom(roots, votes);
    let chosen = sorted_roots(assoc_map(roots, votes));
    lemma_ascending_unique(chosen, roots);
}

/// The flattened votes of the mapping of ascending roots are the flags at
/// the roots' places, one after the other.
pub proof fn lemma_flat_votes(roots: Seq<Bytes32>, votes: Seq<Seq<bool>>, n: nat)
    requires
        strictly_ascending(roots),
        roots.len() == votes.len(),
    ensures
        flat_votes(assoc_map(roots, votes), roots, n) == concat_votes(votes, n),
{
    lemma_assoc_dom(roots, votes);
    let l = flat_votes(assoc_map(roots, votes), roots, n);
    let r = concat_votes(votes, n);
    assert forall|k: int| 0 <= k < l.len() implies l[k] == r[k] by {
        lemma_row_of(k, n as int, roots.len() as int);
        let i = k / (n as int);
        assert(assoc_map(roots, votes)[roots[i]] == votes[i]);
    }
    assert(l =~= r);
}

/// A well-formed state is the state with its own mapping of votes: the
/// flattened votes and the mapping say the same.
pub proof fn lemma_ledger_round_trip(s: StateView)
    requires
        s.wf(),
    ensures
        s.with_justifications(s.ledger()) == s,
        s.ledger().len() == s.justifications_roots.len(),
        forall|r: Bytes32|
            s.ledger().contains_key(r) ==> (#[trigger] s.ledger()[r]).len()
                == s.config.num_validators,
{
    let n = s.config.num_validators as nat;
    let roots = s.justifications_roots;
    let votes = Seq::new(roots.len(), |i: int| vote_chunk(s.justifications_validators, n, i));
    lemma_assoc_dom(roots, votes);
    lemma_sorted_roots(roots, votes);
    lemma_flat_votes(roots, votes, n);
    assert(roots.len() * n <= 8192 * 65536) by (nonlinear_arith)
        requires
            roots.len() <= 8192,
            n <= 65536,
    ;
    let flat = concat_votes(votes, n);
    assert(flat.len() == s.justifications_validators.len());
    assert forall|k: int| 0 <= k < flat.len() implies flat[k] == s.justifications_validators[k] by {
        lemma_row_of(k, n as int, roots.len() as int);
        let i = k / (n as int);
        lemma_place_in_row(i, k % (n as int), n as int, roots.len() as int);
    }
    assert(flat =~= s.justifications_validators);
    assert forall|r: Bytes32| s.ledger().contains_key(r) implies (#[trigger] s.ledger()[r]).len()
        == s.config.num_validators by {
        let i = roots.index_of(r);
        lemma_index_of(roots, i);
        if n > 0 {
            lemma_place_in_row(i, 0, n as int, roots.len() as int);
        } else {
            assert(i * n == 0 && (i + 1) * n == 0) by (nonlinear_arith)
                requires
                    n == 0,
            ;
        }
    }
}

/// The ascending roots of a finite mapping are its keys, in ascending order,
/// as many as the mapping has.
pub proof fn lemma_sorted_roots_of(votes: Map<Bytes32, Seq<bool>>)
    requires
        votes.dom().finite(),
    ensures
        strictly_ascending(sorted_roots(votes)),
        sorted_roots(votes).to_set() == votes.dom(),
        sorted_roots(votes).len() == votes.len(),
{
    lemma_ascending_exists(votes.dom());
    lemma_ascending_no_duplicates(sorted_roots(votes));
    sorted_roots(votes).unique_seq_to_set();
}

/// A state with a finite mapping of votes, of one flag per validator for
/// each root, for its votes in progress is well-formed where its other lists
/// are within their capacities and its registry is.
pub proof fn lemma_with_justifications_wf(s: StateView, votes: Map<Bytes32, Seq<bool>>)
    requires
        votes.dom().finite(),
        s.historical_block_hashes.len() <= HISTORY_LIMIT,
        s.justified_slots.len() <= HISTORY_LIMIT,
        s.config.num_validators <= VALIDATOR_REGISTRY_LIMIT,
    ensures
        s.with_justifications(votes).wf(),
{
    lemma_sorted_roots_of(votes);
    assert(0 == 0 * s.config.num_validators) by (nonlinear_arith);
}

/// Flattening loses nothing: a state that is given a finite mapping of
/// votes, of one flag per validator for each root, that it can keep, has
/// that mapping for its votes in progress.
pub proof fn lemma_with_justifications_ledger(s: StateView, votes: Map<Bytes32, Seq<bool>>)
    requires
        votes.dom().finite(),
        uniform_rows(votes, s.config.num_validators as nat),
        s.can_keep(votes.len()),
    ensures
        s.with_justifications(votes).ledger() == votes,
{
    let n = s.config.num_validators as nat;
    lemma_sorted_roots_of(votes);
    let roots = sorted_roots(votes);
    let rows = Seq::new(roots.len(), |i: int| votes[roots[i]]);
    let flat = flat_votes(votes, roots, n);
    assert forall|i: int| 0 <= i < rows.len() implies (#[trigger] rows[i]).len() == n by {
        assert(roots.contains(roots[i]));
        assert(roots.to_set().contains(roots[i]));
    }
    assert(flat =~= concat_votes(rows, n)) by {
        assert forall|k: int| 0 <= k < flat.len() implies flat[k] == concat_votes(rows, n)[k] by {
            lemma_row_of(k, n as int, roots.len() as int);
        }
    }
    lemma_rows_are_chunks(rows, n);
    let chunks = Seq::new(roots.len(), |i: int| vote_chunk(flat, n, i));
    assert(chunks =~= rows);
    lemma_assoc_dom(roots, rows);
    assert forall|r: Bytes32| votes.contains_key(r) implies assoc_map(roots, rows)[r]
        == votes[r] by {
        assert(roots.to_set().contains(r));
        let i = roots.index_of(r);
        lemma_index_of(roots, i);
    }
    assert(assoc_map(roots, rows) =~= votes);
}

} // verus!
