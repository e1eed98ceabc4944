//! Hash tree roots: what is hashed, in which order, under which capacity.
//! The hashing itself is done by `ssz_rs`.
use crate::types::Bytes32;
use vstd::bytes::{spec_u64_to_le_bytes, u64_to_le_bytes};
use vstd::prelude::*;

verus! {

/// The root of the binary Merkle tree over `chunks`, a whole number of
/// leaves of 32 bytes each. Without a limit the leaves are padded with zero
/// leaves to the next power of two; with a limit, to the next power of two
/// of the limit.
///
/// This names what `ssz_rs::__internal::merkleize` computes with SHA-256.
/// The library reasons about where the function is applied, and to what; it
/// knows nothing of the values it takes.
pub uninterp spec fn merkle_root(chunks: Seq<u8>, limit: Option<usize>) -> Seq<u8>;

/// Calls `ssz_rs::__internal::merkleize`, the function that the containers
/// derived by `ssz_rs` call for their own roots, and hands its 32-byte node
/// back as a digest.
///
/// Trusted: that the node is `merkle_root` of the same arguments, which names
/// the outside function's result and says nothing of its value. The outside
/// function fails when there are more leaves than the limit, and asserts that
/// the input is a whole number of leaves: both are left out by `requires`.
#[verifier::external_body]
pub(crate) fn merkleize(chunks: &Vec<u8>, limit: Option<usize>) -> (root: Bytes32)
    requires
        chunks@.len() % 32 == 0,
        limit matches Some(l) ==> chunks@.len() / 32 <= l && l <= usize::MAX / 2,
    ensures
        root@ == merkle_root(chunks@, limit),
{
    let mut root = [0u8; 32];
    if let Ok(node) = ssz_rs::__internal::merkleize(chunks.as_slice(), limit) {
        root.copy_from_slice(node.as_ref());
    }
    Bytes32(root)
}

/// The leaf that holds a 64-bit number: its eight bytes, lowest first, then
/// 24 zero bytes.
pub open spec fn u64_chunk(x: u64) -> Seq<u8> {
    spec_u64_to_le_bytes(x) + Seq::new(24, |i: int| 0u8)
}

/// The leaves of a list of digests: the digests one after the other.
pub open spec fn concat_chunks(roots: Seq<Seq<u8>>) -> Seq<u8> {
    Seq::new(32 * roots.len(), |i: int| roots[i / 32][i % 32])
}

/// The number of bytes that `n` one-byte items take once they are padded to
/// whole leaves.
pub open spec fn padded_len(n: nat) -> nat {
    (((n + 31) / 32) * 32) as nat
}

/// The leaves of a list of booleans: one byte each, 1 for true, then zero
/// bytes up to the end of the last leaf.
pub open spec fn pack_bits(bits: Seq<bool>) -> Seq<u8> {
    Seq::new(
        padded_len(bits.len()),
        |i: int|
            if i < bits.len() && bits[i] {
                1u8
            } else {
                0u8
            },
    )
}

/// The root of a list: the root of its leaves under the list's capacity,
/// hashed together with the list's length.
pub open spec fn mix_in_length(data_root: Seq<u8>, len: nat) -> Seq<u8> {
    merkle_root(data_root + u64_chunk(len as u64), None)
}

/// The root of a list of at most `capacity` composite items with the given
/// roots.
pub open spec fn list_root(roots: Seq<Seq<u8>>, capacity: usize) -> Seq<u8> {
    mix_in_length(merkle_root(concat_chunks(roots), Some(capacity)), roots.len())
}

/// The root of a list of at most `capacity` booleans.
pub open spec fn bit_list_root(bits: Seq<bool>, capacity: usize) -> Seq<u8> {
    mix_in_length(
        merkle_root(pack_bits(bits), Some(((capacity + 31) / 32) as usize)),
        bits.len(),
    )
}

/// A value with a hash tree root: a digest that commits to the value's
/// fields, in their declared order, and to the capacity of each of its lists.
pub trait SszHash {
    /// The root, as a function of the value.
    spec fn tree_root(&self) -> Seq<u8>;

    /// Computes the root.
    fn hash_tree_root(&self) -> (root: Bytes32)
        ensures
            root@ == self.tree_root(),
    ;
}

/// The hash tree root of `value`.
pub fn compute_hash_tree_root<T: SszHash>(value: &T) -> (root: Bytes32)
    ensures
        root@ == value.tree_root(),
{
    value.hash_tree_root()
}

/// Appends the leaf of `x` to `buf`.
pub(crate) fn push_u64_chunk(buf: &mut Vec<u8>, x: u64)
    ensures
        final(buf)@ == old(buf)@ + u64_chunk(x),
{
    let mut le = u64_to_le_bytes(x);
    let ghost before = buf@;
    buf.append(&mut le);
    let mut i: usize = 0;
    while i < 24
        invariant
            i <= 24,
            buf@ == before + spec_u64_to_le_bytes(x) + Seq::new(i as nat, |j: int| 0u8),
        decreases 24 - i,
    {
        buf.push(0u8);
        i += 1;
        assert(buf@ =~= before + spec_u64_to_le_bytes(x) + Seq::new(i as nat, |j: int| 0u8));
    }
    assert(buf@ =~= before + u64_chunk(x));
}

/// Appends the bytes of `digest` to `buf`.
pub(crate) fn push_digest(buf: &mut Vec<u8>, digest: &Bytes32)
    ensures
        final(buf)@ == old(buf)@ + digest@,
{
    let ghost before = buf@;
    let mut i: usize = 0;
    while i < 32
        invariant
            i <= 32,
            buf@ == before + digest@.subrange(0, i as int),
        decreases 32 - i,
    {
        buf.push(digest.0[i]);
        i += 1;
        assert(buf@ =~= before + digest@.subrange(0, i as int));
    }
    assert(digest@.subrange(0, 32) =~= digest@);
}

/// Hashes a list's data root together with its length.
pub(crate) fn mix_in_list_length(data_root: &Bytes32, len: usize) -> (root: Bytes32)
    ensures
        root@ == mix_in_length(data_root@, len as nat),
{
    let mut chunks: Vec<u8> = Vec::new();
    push_digest(&mut chunks, data_root);
    push_u64_chunk(&mut chunks, len as u64);
    assert(chunks@ =~= data_root@ + u64_chunk(len as u64));
    assert(u64_chunk(len as u64).len() == 32) by {
        vstd::bytes::lemma_auto_spec_u64_to_from_le_bytes();
    }
    merkleize(&chunks, None)
}

/// Adding a root to the roots of a list adds its bytes to the list's leaves.
pub proof fn lemma_concat_chunks_push(roots: Seq<Seq<u8>>, root: Seq<u8>)
    requires
        root.len() == 32,
    ensures
        concat_chunks(roots.push(root)) == concat_chunks(roots) + root,
{
    let l = concat_chunks(roots.push(root));
    let r = concat_chunks(roots) + root;
    assert(l.len() == r.len());
    assert forall|i: int| 0 <= i < l.len() implies l[i] == r[i] by {
        if i < 32 * roots.len() {
            assert(i / 32 < roots.len());
        } else {
            assert(i / 32 == roots.len());
            assert(i % 32 == i - 32 * roots.len());
        }
    }
    assert(l =~= r);
}

/// The bytes of each digest of a list.
pub open spec fn digest_seqs(digests: Seq<Bytes32>) -> Seq<Seq<u8>> {
    Seq::new(digests.len(), |i: int| digests[i]@)
}

/// The root of a list of at most `capacity` digests.
pub(crate) fn hash_digest_list(digests: &Vec<Bytes32>, capacity: usize) -> (root: Bytes32)
    requires
        digests@.len() <= capacity <= 0x4000_0000,
    ensures
        root@ == list_root(digest_seqs(digests@), capacity),
{
    let n = digests.len();
    let mut chunks: Vec<u8> = Vec::new();
    let mut i: usize = 0;
    assert(chunks@ =~= concat_chunks(digest_seqs(digests@).take(0)));
    while i < n
        invariant
            i <= n,
            n == digests@.len(),
            chunks@ == concat_chunks(digest_seqs(digests@).take(i as int)),
        decreases n - i,
    {
        push_digest(&mut chunks, &digests[i]);
        proof {
            lemma_concat_chunks_push(digest_seqs(digests@).take(i as int), digests@[i as int]@);
            assert(digest_seqs(digests@).take(i as int).push(digests@[i as int]@)
                =~= digest_seqs(digests@).take(i + 1));
        }
        i += 1;
    }
    assert(digest_seqs(digests@).take(n as int) =~= digest_seqs(digests@));
    let data_root = merkleize(&chunks, Some(capacity));
    mix_in_list_length(&data_root, n)
}

/// The root of a list of at most `capacity` booleans.
pub(crate) fn hash_bit_list(bits: &Vec<bool>, capacity: usize) -> (root: Bytes32)
    requires
        bits@.len() <= capacity <= 0x4000_0000,
    ensures
        root@ == bit_list_root(bits@, capacity),
{
    let n = bits.len();
    let mut chunks: Vec<u8> = Vec::new();
    let mut i: usize = 0;
    while i < n
        invariant
            i <= n,
            n == bits@.len(),
            chunks@ == pack_bits(bits@).subrange(0, i as int),
        decreases n - i,
    {
        chunks.push(if bits[i] { 1u8 } else { 0u8 });
        i += 1;
        assert(chunks@ =~= pack_bits(bits@).subrange(0, i as int));
    }
    let padded = ((n + 31) / 32) * 32;
    while i < padded
        invariant
            n <= i <= padded,
            n == bits@.len(),
            padded == padded_len(bits@.len()),
            chunks@ == pack_bits(bits@).subrange(0, i as int),
        decreases padded - i,
    {
        chunks.push(0u8);
        i += 1;
        assert(chunks@ =~= pack_bits(bits@).subrange(0, i as int));
    }
    assert(chunks@ =~= pack_bits(bits@));
    let data_root = merkleize(&chunks, Some((capacity + 31) / 32));
    mix_in_list_length(&data_root, n)
}

} // verus!
