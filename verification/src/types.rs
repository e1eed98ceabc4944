//! Digests and numbers.
use vstd::prelude::*;
use vstd::std_specs::cmp::PartialEqSpecImpl;

verus! {

/// A 32-byte digest: the root of a block, of a state, of a vote's checkpoint.
///
/// Digests compare by their bytes, and are ordered as their bytes read from
/// the first to the last (see [`Bytes32::precedes`]).
#[derive(Clone, Copy, Debug, Eq, Hash, PartialOrd, Ord, Default)]
pub struct Bytes32(pub [u8; 32]);

/// An unsigned 64-bit number.
#[derive(Clone, Copy, Debug, PartialEq, Eq, Structural, PartialOrd, Ord, Default)]
pub struct Uint64(pub u64);

/// The position of a validator in the registry.
#[derive(Clone, Copy, Debug, PartialEq, Eq, Structural, Default)]
pub struct ValidatorIndex(pub u64);

impl View for Bytes32 {
    type V = Seq<u8>;

    open spec fn view(&self) -> Seq<u8> {
        self.0@
    }
}

/// The bytes of the zero digest.
pub open spec fn zero_bytes() -> Seq<u8> {
    Seq::new(32, |i: int| 0u8)
}

/// `a` comes before `b` when the two are read byte by byte from the front:
/// at the first place where they differ, `a` holds the smaller byte.
pub open spec fn bytes_precede(a: Seq<u8>, b: Seq<u8>) -> bool {
    exists|i: int|
        0 <= i < a.len() && i < b.len() && a[i] < b[i] && #[trigger] a.subrange(0, i)
            == b.subrange(0, i)
}

/// The digest with the given 32 bytes.
pub open spec fn digest_of(bytes: Seq<u8>) -> Bytes32 {
    choose|d: Bytes32| d@ == bytes
}

/// The digest of 32 zero bytes.
pub open spec fn zero_digest() -> Bytes32 {
    digest_of(zero_bytes())
}

/// A digest is the digest of its bytes.
pub proof fn lemma_digest_of(d: Bytes32)
    ensures
        digest_of(d@) == d,
{
    lemma_bytes32_ext(digest_of(d@), d);
}

impl Bytes32 {
    /// The digest of 32 zero bytes.
    pub fn zero() -> (z: Bytes32)
        ensures
            z@ == zero_bytes(),
            z == zero_digest(),
    {
        let z = Bytes32([0u8; 32]);
        assert(z@ =~= zero_bytes());
        proof {
            lemma_digest_of(z);
        }
        z
    }

    /// Whether this is the zero digest.
    pub fn is_zero(&self) -> (r: bool)
        ensures
            r == (self@ == zero_bytes()),
    {
        let mut i: usize = 0;
        while i < 32
            invariant
                i <= 32,
                forall|j: int| 0 <= j < i ==> self.0[j] == 0u8,
            decreases 32 - i,
        {
            if self.0[i] != 0 {
                assert(zero_bytes()[i as int] == 0u8);
                return false;
            }
            i += 1;
        }
        assert(self@ =~= zero_bytes());
        true
    }

    /// Whether this digest is ordered strictly before `other`.
    pub fn precedes(&self, other: &Bytes32) -> (r: bool)
        ensures
            r == bytes_precede(self@, other@),
    {
        let mut i: usize = 0;
        while i < 32
            invariant
                i <= 32,
                forall|j: int| 0 <= j < i ==> self.0[j] == other.0[j],
            decreases 32 - i,
        {
            if self.0[i] != other.0[i] {
                let r = self.0[i] < other.0[i];
                proof {
                    lemma_first_difference(self@, other@, i as int);
                }
                return r;
            }
            i += 1;
        }
        proof {
            assert(self@ =~= other@);
            lemma_precede_irreflexive(self@);
        }
        false
    }
}

/// Nothing comes before itself.
pub proof fn lemma_precede_irreflexive(a: Seq<u8>)
    ensures
        !bytes_precede(a, a),
{
}

/// Where `a` and `b` agree before place `i` and differ at it, the bytes at
/// `i` decide which of the two comes first.
pub proof fn lemma_first_difference(a: Seq<u8>, b: Seq<u8>, i: int)
    requires
        0 <= i < a.len(),
        i < b.len(),
        forall|j: int| 0 <= j < i ==> a[j] == b[j],
        a[i] != b[i],
    ensures
        bytes_precede(a, b) == (a[i] < b[i]),
        bytes_precede(b, a) == (b[i] < a[i]),
{
    assert(a.subrange(0, i) =~= b.subrange(0, i));
    assert(b.subrange(0, i) =~= a.subrange(0, i));
    assert forall|k: int|
        0 <= k < a.len() && k < b.len() && a.subrange(0, k) == b.subrange(0, k) implies k <= i by {
        if k > i {
            assert(a.subrange(0, k)[i] == a[i]);
            assert(b.subrange(0, k)[i] == b[i]);
        }
    }
    assert forall|k: int|
        0 <= k < a.len() && k < b.len() && a[k] != b[k] && a.subrange(0, k) == b.subrange(0, k)
        implies k == i by {
        if k < i {
            assert(a[k] == b[k]);
        }
    }
}

/// The order of digests is transitive.
pub proof fn lemma_precede_transitive(a: Seq<u8>, b: Seq<u8>, c: Seq<u8>)
    requires
        bytes_precede(a, b),
        bytes_precede(b, c),
    ensures
        bytes_precede(a, c),
{
    let i = choose|i: int|
        0 <= i < a.len() && i < b.len() && a[i] < b[i] && #[trigger] a.subrange(0, i)
            == b.subrange(0, i);
    let j = choose|j: int|
        0 <= j < b.len() && j < c.len() && b[j] < c[j] && #[trigger] b.subrange(0, j)
            == c.subrange(0, j);
    let k = if i <= j { i } else { j };
    assert forall|m: int| 0 <= m < k implies a[m] == c[m] by {
        assert(a.subrange(0, i)[m] == a[m]);
        assert(b.subrange(0, i)[m] == b[m]);
        assert(b.subrange(0, j)[m] == b[m]);
        assert(c.subrange(0, j)[m] == c[m]);
    }
    assert(a.subrange(0, k) =~= c.subrange(0, k));
    if i < j {
        assert(b.subrange(0, j)[i] == b[i]);
        assert(c.subrange(0, j)[i] == c[i]);
    } else if j < i {
        assert(a.subrange(0, i)[j] == a[j]);
        assert(b.subrange(0, i)[j] == b[j]);
    }
}

/// Two digests with the same bytes are the same digest.
pub proof fn lemma_bytes32_ext(a: Bytes32, b: Bytes32)
    requires
        a@ == b@,
    ensures
        a == b,
{
    assert(a.0 =~= b.0);
}

impl PartialEq for Bytes32 {
    fn eq(&self, other: &Bytes32) -> (r: bool) {
        let mut i: usize = 0;
        while i < 32
            invariant
                i <= 32,
                forall|j: int| 0 <= j < i ==> self.0[j] == other.0[j],
            decreases 32 - i,
        {
            if self.0[i] != other.0[i] {
                return false;
            }
            i += 1;
        }
        proof {
            assert(self.0 =~= other.0);
        }
        true
    }
}

impl PartialEqSpecImpl for Bytes32 {
    open spec fn obeys_eq_spec() -> bool {
        true
    }

    open spec fn eq_spec(&self, other: &Bytes32) -> bool {
        *self == *other
    }
}

} // verus!
