//! Digests in ascending order, and the mapping that a list of ascending
//! roots makes with a list of values at the same places.
use crate::types::{
    bytes_precede, lemma_bytes32_ext, lemma_first_difference, lemma_precede_irreflexive,
    lemma_precede_transitive, Bytes32,
};
use vstd::prelude::*;

verus! {

/// Every root comes before the roots that follow it: the roots are sorted
/// and none occurs twice.
pub open spec fn strictly_ascending(roots: Seq<Bytes32>) -> bool {
    forall|i: int, j: int|
        #![trigger roots[i], roots[j]]
        0 <= i < j < roots.len() ==> bytes_precede(roots[i]@, roots[j]@)
}

/// The mapping that sends each of `roots` to the votes at the same place.
pub open spec fn assoc_map(roots: Seq<Bytes32>, votes: Seq<Seq<bool>>) -> Map<
    Bytes32,
    Seq<bool>,
> {
    Map::new(|r: Bytes32| roots.contains(r), |r: Bytes32| votes[roots.index_of(r)])
}

/// Of two different digests one comes before the other.
pub proof fn lemma_precede_total(a: Bytes32, b: Bytes32)
    requires
        a != b,
    ensures
        bytes_precede(a@, b@) || bytes_precede(b@, a@),
{
    lemma_precede_total_from(a, b, 0);
}

/// The same, for two digests that agree before place `i`.
proof fn lemma_precede_total_from(a: Bytes32, b: Bytes32, i: int)
    requires
        a != b,
        0 <= i <= 32,
        forall|j: int| 0 <= j < i ==> a@[j] == b@[j],
    ensures
        bytes_precede(a@, b@) || bytes_precede(b@, a@),
    decreases 32 - i,
{
    if i == 32 {
        assert(a@ =~= b@);
        lemma_bytes32_ext(a, b);
    } else if a@[i] != b@[i] {
        lemma_first_difference(a@, b@, i);
    } else {
        lemma_precede_total_from(a, b, i + 1);
    }
}

/// Where each root comes before the next, each comes before all that follow.
pub proof fn lemma_adjacent_ascending(roots: Seq<Bytes32>)
    requires
        forall|i: int|
            0 <= i < roots.len() - 1 ==> bytes_precede(#[trigger] roots[i]@, roots[i + 1]@),
    ensures
        strictly_ascending(roots),
{
    assert forall|i: int, j: int| 0 <= i < j < roots.len() implies bytes_precede(
        roots[i]@,
        roots[j]@,
    ) by {
        lemma_adjacent_reach(roots, i, j);
    }
}

/// Root `i` comes before root `j`, by way of the roots between them.
proof fn lemma_adjacent_reach(roots: Seq<Bytes32>, i: int, j: int)
    requires
        forall|k: int|
            0 <= k < roots.len() - 1 ==> bytes_precede(#[trigger] roots[k]@, roots[k + 1]@),
        0 <= i < j < roots.len(),
    ensures
        bytes_precede(roots[i]@, roots[j]@),
    decreases j - i,
{
    if j == i + 1 {
        assert(bytes_precede(roots[i]@, roots[i + 1]@));
    } else {
        lemma_adjacent_reach(roots, i, j - 1);
        assert(bytes_precede(roots[j - 1]@, roots[j - 1 + 1]@));
        lemma_precede_transitive(roots[i]@, roots[j - 1]@, roots[j]@);
    }
}

/// Ascending roots hold no root twice.
pub proof fn lemma_ascending_no_duplicates(roots: Seq<Bytes32>)
    requires
        strictly_ascending(roots),
    ensures
        roots.no_duplicates(),
{
    assert forall|i: int, j: int|
        0 <= i < roots.len() && 0 <= j < roots.len() && i != j implies roots[i] != roots[j] by {
        if i < j {
            assert(bytes_precede(roots[i]@, roots[j]@));
        } else {
            assert(bytes_precede(roots[j]@, roots[i]@));
        }
        lemma_precede_irreflexive(roots[i]@);
    }
}

/// Among ascending roots a root is found where it stands and nowhere else.
pub proof fn lemma_index_of(roots: Seq<Bytes32>, i: int)
    requires
        strictly_ascending(roots),
        0 <= i < roots.len(),
    ensures
        roots.contains(roots[i]),
        roots.index_of(roots[i]) == i,
{
    lemma_ascending_no_duplicates(roots);
    assert(roots.contains(roots[i]));
}

/// The mapping of ascending roots has the roots for its keys, and as many
/// keys as there are roots.
pub proof fn lemma_assoc_dom(roots: Seq<Bytes32>, votes: Seq<Seq<bool>>)
    requires
        strictly_ascending(roots),
    ensures
        assoc_map(roots, votes).dom() == roots.to_set(),
        assoc_map(roots, votes).dom().finite(),
        assoc_map(roots, votes).len() == roots.len(),
        forall|i: int|
            0 <= i < roots.len() ==> assoc_map(roots, votes).contains_key(#[trigger] roots[i])
                && assoc_map(roots, votes)[roots[i]] == votes[i],
{
    assert(assoc_map(roots, votes).dom() =~= roots.to_set());
    vstd::seq_lib::seq_to_set_is_finite(roots);
    lemma_ascending_no_duplicates(roots);
    roots.unique_seq_to_set();
    assert forall|i: int| 0 <= i < roots.len() implies assoc_map(roots, votes).contains_key(
        #[trigger] roots[i],
    ) && assoc_map(roots, votes)[roots[i]] == votes[i] by {
        lemma_index_of(roots, i);
    }
}

/// A root that stands between the roots before `at` and those from `at` on
/// is none of them.
pub proof fn lemma_absent(roots: Seq<Bytes32>, root: Bytes32, at: int)
    requires
        0 <= at <= roots.len(),
        forall|i: int| 0 <= i < at ==> bytes_precede(#[trigger] roots[i]@, root@),
        forall|i: int| at <= i < roots.len() ==> bytes_precede(root@, #[trigger] roots[i]@),
    ensures
        !roots.contains(root),
{
    if roots.contains(root) {
        let k = roots.index_of(root);
        lemma_precede_irreflexive(root@);
        if k < at {
            assert(bytes_precede(roots[k]@, root@));
        } else {
            assert(bytes_precede(root@, roots[k]@));
        }
    }
}

/// A root that is not among ascending roots has its place among them:
/// behind the roots that come before it, ahead of those that come after.
pub proof fn lemma_insertion_point(roots: Seq<Bytes32>, root: Bytes32) -> (at: int)
    requires
        strictly_ascending(roots),
        !roots.contains(root),
    ensures
        0 <= at <= roots.len(),
        forall|i: int| 0 <= i < at ==> bytes_precede(#[trigger] roots[i]@, root@),
        forall|i: int| at <= i < roots.len() ==> bytes_precede(root@, #[trigger] roots[i]@),
    decreases roots.len(),
{
    if roots.len() == 0 {
        0
    } else {
        let last = roots.last();
        assert(roots.contains(roots[roots.len() - 1]));
        if bytes_precede(last@, root@) {
            assert forall|i: int| 0 <= i < roots.len() implies bytes_precede(
                #[trigger] roots[i]@,
                root@,
            ) by {
                if i < roots.len() - 1 {
                    assert(bytes_precede(roots[i]@, roots[roots.len() - 1]@));
                    lemma_precede_transitive(roots[i]@, last@, root@);
                }
            }
            roots.len() as int
        } else {
            lemma_precede_total(last, root);
            let front = roots.drop_last();
            assert(strictly_ascending(front)) by {
                assert forall|i: int, j: int| 0 <= i < j < front.len() implies bytes_precede(
                    front[i]@,
                    front[j]@,
                ) by {
                    assert(bytes_precede(roots[i]@, roots[j]@));
                }
            }
            if front.contains(root) {
                let k = front.index_of(root);
                assert(roots[k] == root);
            }
            let at = lemma_insertion_point(front, root);
            assert forall|i: int| 0 <= i < at implies bytes_precede(
                #[trigger] roots[i]@,
                root@,
            ) by {
                assert(front[i] == roots[i]);
            }
            assert forall|i: int| at <= i < roots.len() implies bytes_precede(
                root@,
                #[trigger] roots[i]@,
            ) by {
                if i < roots.len() - 1 {
                    assert(front[i] == roots[i]);
                }
            }
            at
        }
    }
}

/// Putting a new root at its place among ascending roots, with its votes at
/// the same place, adds the pair to the mapping.
pub proof fn lemma_assoc_insert(
    roots: Seq<Bytes32>,
    votes: Seq<Seq<bool>>,
    at: int,
    root: Bytes32,
    bits: Seq<bool>,
)
    requires
        strictly_ascending(roots),
        roots.len() == votes.len(),
        0 <= at <= roots.len(),
        forall|i: int| 0 <= i < at ==> bytes_precede(#[trigger] roots[i]@, root@),
        forall|i: int| at <= i < roots.len() ==> bytes_precede(root@, #[trigger] roots[i]@),
    ensures
        strictly_ascending(roots.insert(at, root)),
        assoc_map(roots.insert(at, root), votes.insert(at, bits)) == assoc_map(
            roots,
            votes,
        ).insert(root, bits),
{
    let roots2 = roots.insert(at, root);
    let votes2 = votes.insert(at, bits);
    assert(roots2.len() == roots.len() + 1);
    assert forall|i: int, j: int| 0 <= i < j < roots2.len() implies bytes_precede(
        roots2[i]@,
        roots2[j]@,
    ) by {
        if j < at {
            assert(bytes_precede(roots[i]@, roots[j]@));
        } else if j == at {
            assert(bytes_precede(roots[i]@, root@));
        } else if i < at {
            assert(roots2[j] == roots[j - 1]);
            if j - 1 == i {
                assert(false);
            }
            assert(bytes_precede(roots[i]@, roots[j - 1]@));
        } else if i == at {
            assert(roots2[j] == roots[j - 1]);
            assert(bytes_precede(root@, roots[j - 1]@));
        } else {
            assert(roots2[i] == roots[i - 1]);
            assert(roots2[j] == roots[j - 1]);
            assert(bytes_precede(roots[i - 1]@, roots[j - 1]@));
        }
    }
    let m1 = assoc_map(roots2, votes2);
    let m2 = assoc_map(roots, votes).insert(root, bits);
    assert forall|r: Bytes32| m1.contains_key(r) <==> m2.contains_key(r) by {
        if roots2.contains(r) {
            let k = roots2.index_of(r);
            if k < at {
                assert(roots[k] == r);
            } else if k > at {
                assert(roots[k - 1] == r);
            }
        }
        if roots.contains(r) {
            let k = roots.index_of(r);
            if k < at {
                assert(roots2[k] == r);
            } else {
                assert(roots2[k + 1] == r);
            }
        }
        if r == root {
            assert(roots2[at] == r);
        }
    }
    assert forall|r: Bytes32| m1.contains_key(r) implies m1[r] == m2[r] by {
        let k = roots2.index_of(r);
        lemma_index_of(roots2, k);
        if k == at {
        } else if k < at {
            lemma_index_of(roots, k);
            lemma_precede_irreflexive(root@);
        } else {
            lemma_index_of(roots, k - 1);
            lemma_precede_irreflexive(root@);
        }
    }
    assert(m1 =~= m2);
}

/// Replacing the votes at the place of a root replaces them in the mapping.
pub proof fn lemma_assoc_update(
    roots: Seq<Bytes32>,
    votes: Seq<Seq<bool>>,
    at: int,
    bits: Seq<bool>,
)
    requires
        strictly_ascending(roots),
        roots.len() == votes.len(),
        0 <= at < roots.len(),
    ensures
        assoc_map(roots, votes.update(at, bits)) == assoc_map(roots, votes).insert(
            roots[at],
            bits,
        ),
{
    let m1 = assoc_map(roots, votes.update(at, bits));
    let m2 = assoc_map(roots, votes).insert(roots[at], bits);
    lemma_index_of(roots, at);
    assert forall|r: Bytes32| m1.contains_key(r) implies m1[r] == m2[r] by {
        let k = roots.index_of(r);
        lemma_index_of(roots, k);
    }
    assert(m1 =~= m2);
}

/// Taking a root and its votes out of their place takes the root out of the
/// mapping.
pub proof fn lemma_assoc_remove(roots: Seq<Bytes32>, votes: Seq<Seq<bool>>, at: int)
    requires
        strictly_ascending(roots),
        roots.len() == votes.len(),
        0 <= at < roots.len(),
    ensures
        strictly_ascending(roots.remove(at)),
        assoc_map(roots.remove(at), votes.remove(at)) == assoc_map(roots, votes).remove(
            roots[at],
        ),
{
    let roots2 = roots.remove(at);
    let votes2 = votes.remove(at);
    assert forall|i: int, j: int| 0 <= i < j < roots2.len() implies bytes_precede(
        roots2[i]@,
        roots2[j]@,
    ) by {
        let i0 = if i < at { i } else { i + 1 };
        let j0 = if j < at { j } else { j + 1 };
        assert(roots2[i] == roots[i0]);
        assert(roots2[j] == roots[j0]);
        assert(bytes_precede(roots[i0]@, roots[j0]@));
    }
    let m1 = assoc_map(roots2, votes2);
    let m2 = assoc_map(roots, votes).remove(roots[at]);
    lemma_ascending_no_duplicates(roots);
    assert forall|r: Bytes32| m1.contains_key(r) <==> m2.contains_key(r) by {
        if roots2.contains(r) {
            let k = roots2.index_of(r);
            let k0 = if k < at { k } else { k + 1 };
            assert(roots[k0] == r);
        }
        if roots.contains(r) && r != roots[at] {
            let k = roots.index_of(r);
            if k < at {
                assert(roots2[k] == r);
            } else {
                assert(roots2[k - 1] == r);
            }
        }
    }
    assert forall|r: Bytes32| m1.contains_key(r) implies m1[r] == m2[r] by {
        let k = roots2.index_of(r);
        lemma_index_of(roots2, k);
        let k0 = if k < at { k } else { k + 1 };
        assert(roots[k0] == r);
        lemma_index_of(roots, k0);
    }
    assert(m1 =~= m2);
}

/// Ascending roots are determined by the set of them: there is one way to
/// write a set of roots down in order.
pub proof fn lemma_ascending_unique(a: Seq<Bytes32>, b: Seq<Bytes32>)
    requires
        strictly_ascending(a),
        strictly_ascending(b),
        a.to_set() == b.to_set(),
    ensures
        a == b,
    decreases a.len(),
{
    lemma_ascending_no_duplicates(a);
    lemma_ascending_no_duplicates(b);
    a.unique_seq_to_set();
    b.unique_seq_to_set();
    assert(a.len() == b.len());
    if a.len() > 0 {
        let n = a.len() - 1;
        // the last root of each is the greatest of the set
        assert(a.contains(a[n]));
        assert(b.to_set().contains(a[n]));
        assert(b.contains(a[n]));
        let j = b.index_of(a[n]);
        assert(b.contains(b[n]));
        assert(a.to_set().contains(b[n]));
        assert(a.contains(b[n]));
        let i = a.index_of(b[n]);
        if j < n {
            assert(bytes_precede(b[j]@, b[n]@));
            if i < n {
                assert(bytes_precede(a[i]@, a[n]@));
                lemma_precede_transitive(a[n]@, b[n]@, a[n]@);
                lemma_precede_irreflexive(a[n]@);
            }
            lemma_precede_irreflexive(b[n]@);
        }
        assert(a[n] == b[n]);
        let a1 = a.drop_last();
        let b1 = b.drop_last();
        assert forall|r: Bytes32| a1.contains(r) <==> b1.contains(r) by {
            if a1.contains(r) {
                let k = a1.index_of(r);
                assert(a[k] == r);
                assert(a.contains(r));
                assert(b.to_set().contains(r));
                let m = b.index_of(r);
                assert(m != n);
                assert(b1[m] == r);
            }
            if b1.contains(r) {
                let k = b1.index_of(r);
                assert(b[k] == r);
                assert(b.contains(r));
                assert(a.to_set().contains(r));
                let m = a.index_of(r);
                assert(m != n);
                assert(a1[m] == r);
            }
        }
        assert(a1.to_set() =~= b1.to_set());
        assert(strictly_ascending(a1)) by {
            assert forall|i: int, j: int| 0 <= i < j < a1.len() implies bytes_precede(
                a1[i]@,
                a1[j]@,
            ) by {
                assert(bytes_precede(a[i]@, a[j]@));
            }
        }
        assert(strictly_ascending(b1)) by {
            assert forall|i: int, j: int| 0 <= i < j < b1.len() implies bytes_precede(
                b1[i]@,
                b1[j]@,
            ) by {
                assert(bytes_precede(b[i]@, b[j]@));
            }
        }
        lemma_ascending_unique(a1, b1);
        assert(a =~= a1.push(a[n]));
        assert(b =~= b1.push(b[n]));
    } else {
        assert(a =~= b);
    }
}

/// Every finite set of roots can be written down in ascending order.
pub proof fn lemma_ascending_exists(set: Set<Bytes32>)
    requires
        set.finite(),
    ensures
        exists|roots: Seq<Bytes32>| strictly_ascending(roots) && roots.to_set() == set,
    decreases set.len(),
{
    broadcast use vstd::set::group_set_axioms;

    if set.len() == 0 {
        vstd::set_lib::lemma_set_empty_equivalency_len(set);
        let roots = Seq::<Bytes32>::empty();
        assert(roots.to_set() =~= set);
        assert(strictly_ascending(roots) && roots.to_set() == set);
    } else {
        let root = set.choose();
        let rest = set.remove(root);
        lemma_ascending_exists(rest);
        let others = choose|roots: Seq<Bytes32>|
            strictly_ascending(roots) && roots.to_set() == rest;
        assert(!others.contains(root)) by {
            if others.contains(root) {
                assert(others.to_set().contains(root));
            }
        }
        let at = lemma_insertion_point(others, root);
        let rows = Seq::new(others.len(), |i: int| Seq::<bool>::empty());
        lemma_assoc_insert(others, rows, at, root, Seq::<bool>::empty());
        let roots = others.insert(at, root);
        lemma_assoc_dom(others, rows);
        lemma_assoc_dom(roots, rows.insert(at, Seq::<bool>::empty()));
        assert(roots.to_set() =~= rest.insert(root));
        assert(rest.insert(root) =~= set);
        assert(strictly_ascending(roots) && roots.to_set() == set);
    }
}

} // verus!
