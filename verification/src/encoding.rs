//! The byte encoding of the containers: every field in its declared order, a
//! number as its bytes from the lowest, a digest as its 32 bytes, and a list
//! behind a four-byte offset that says where its items start.
pub mod block;
pub mod fixed;
pub mod state;

use crate::ssz::{concat_chunks, digest_seqs, lemma_concat_chunks_push, push_digest};
use crate::types::{digest_of, lemma_digest_of, Bytes32};
use vstd::bytes::{
    lemma_auto_spec_u64_to_from_le_bytes, spec_u32_from_le_bytes, spec_u32_to_le_bytes,
    spec_u64_from_le_bytes, spec_u64_to_le_bytes, u32_from_le_bytes, u32_to_le_bytes,
    u64_from_le_bytes, u64_to_le_bytes,
};
use vstd::prelude::*;
use vstd::slice::slice_subrange;

verus! {

/// The 64-bit number whose encoding starts at `at`.
pub open spec fn u64_at(bytes: Seq<u8>, at: int) -> u64 {
    spec_u64_from_le_bytes(bytes.subrange(at, at + 8))
}

/// The digest whose encoding starts at `at`.
pub open spec fn digest_at(bytes: Seq<u8>, at: int) -> Bytes32 {
    digest_of(bytes.subrange(at, at + 32))
}

/// A part of a part is a part of the whole.
pub proof fn lemma_window(bytes: Seq<u8>, at: int, len: int, i: int, j: int)
    requires
        0 <= at,
        at + len <= bytes.len(),
        0 <= i <= j <= len,
    ensures
        bytes.subrange(at, at + len).subrange(i, j) == bytes.subrange(at + i, at + j),
{
    assert(bytes.subrange(at, at + len).subrange(i, j) =~= bytes.subrange(at + i, at + j));
}

/// The number read where its encoding stands is the number.
pub proof fn lemma_u64_at(bytes: Seq<u8>, at: int, x: u64)
    requires
        0 <= at,
        at + 8 <= bytes.len(),
        bytes.subrange(at, at + 8) == spec_u64_to_le_bytes(x),
    ensures
        u64_at(bytes, at) == x,
{
    lemma_auto_spec_u64_to_from_le_bytes();
}

/// The digest read where its bytes stand is the digest.
pub proof fn lemma_digest_at(bytes: Seq<u8>, at: int, d: Bytes32)
    requires
        0 <= at,
        at + 32 <= bytes.len(),
        bytes.subrange(at, at + 32) == d@,
    ensures
        digest_at(bytes, at) == d,
{
    lemma_digest_of(d);
}

/// Reads the number whose encoding starts at `at`.
pub(crate) fn read_u64(bytes: &[u8], at: usize) -> (x: u64)
    requires
        at + 8 <= bytes@.len(),
    ensures
        x == u64_at(bytes@, at as int),
        spec_u64_to_le_bytes(x) == bytes@.subrange(at as int, at + 8),
{
    let len = bytes.len();
    assert(at + 8 <= len);
    proof {
        lemma_auto_spec_u64_to_from_le_bytes();
    }
    u64_from_le_bytes(slice_subrange(bytes, at, at + 8))
}

/// Reads the digest whose encoding starts at `at`.
pub(crate) fn read_digest(bytes: &[u8], at: usize) -> (d: Bytes32)
    requires
        at + 32 <= bytes@.len(),
    ensures
        d == digest_at(bytes@, at as int),
        d@ == bytes@.subrange(at as int, at + 32),
{
    let len = bytes.len();
    let mut out = [0u8; 32];
    let mut i: usize = 0;
    while i < 32
        invariant
            i <= 32,
            at + 32 <= bytes@.len(),
            len == bytes@.len(),
            forall|k: int| 0 <= k < i ==> out@[k] == bytes@[at + k],
        decreases 32 - i,
    {
        out[i] = bytes[at + i];
        i += 1;
    }
    let d = Bytes32(out);
    proof {
        assert(d@ =~= bytes@.subrange(at as int, at + 32));
        lemma_digest_of(d);
    }
    d
}

/// Appends the encoding of `x` to `buf`.
pub(crate) fn write_u64(buf: &mut Vec<u8>, x: u64)
    ensures
        final(buf)@ == old(buf)@ + spec_u64_to_le_bytes(x),
{
    let mut le = u64_to_le_bytes(x);
    buf.append(&mut le);
}

/// The 32-bit number whose encoding starts at `at`.
pub open spec fn u32_at(bytes: Seq<u8>, at: int) -> u32 {
    spec_u32_from_le_bytes(bytes.subrange(at, at + 4))
}

/// The encoding of a list of flags: one byte each, 1 for a set flag.
pub open spec fn encode_flags(flags: Seq<bool>) -> Seq<u8> {
    Seq::new(
        flags.len(),
        |i: int|
            if flags[i] {
                1u8
            } else {
                0u8
            },
    )
}

/// The encoding of a list of digests: their bytes, one digest after the other.
pub open spec fn encode_digests(digests: Seq<Bytes32>) -> Seq<u8> {
    concat_chunks(digest_seqs(digests))
}

/// Whether each of the `count` bytes from `at` on encodes a flag.
pub open spec fn are_flags(bytes: Seq<u8>, at: int, count: int) -> bool {
    forall|i: int| at <= i < at + count ==> #[trigger] bytes[i] == 0u8 || bytes[i] == 1u8
}

/// The `count` flags whose encoding starts at `at`.
pub open spec fn flags_at(bytes: Seq<u8>, at: int, count: nat) -> Seq<bool> {
    Seq::new(count, |i: int| bytes[at + i] == 1u8)
}

/// The `count` digests whose encoding starts at `at`.
pub open spec fn digests_at(bytes: Seq<u8>, at: int, count: nat) -> Seq<Bytes32> {
    Seq::new(count, |i: int| digest_at(bytes, at + 32 * i))
}

/// Reads the 32-bit number whose encoding starts at `at`.
pub(crate) fn read_u32(bytes: &[u8], at: usize) -> (x: u32)
    requires
        at + 4 <= bytes@.len(),
    ensures
        x == u32_at(bytes@, at as int),
        spec_u32_to_le_bytes(x) == bytes@.subrange(at as int, at + 4),
{
    let len = bytes.len();
    assert(at + 4 <= len);
    proof {
        vstd::bytes::lemma_auto_spec_u32_to_from_le_bytes();
    }
    u32_from_le_bytes(slice_subrange(bytes, at, at + 4))
}

/// Appends the encoding of `x` to `buf`.
pub(crate) fn write_u32(buf: &mut Vec<u8>, x: u32)
    ensures
        final(buf)@ == old(buf)@ + spec_u32_to_le_bytes(x),
{
    let mut le = u32_to_le_bytes(x);
    buf.append(&mut le);
}

/// Appends the encoding of `flags` to `buf`.
pub(crate) fn write_flags(buf: &mut Vec<u8>, flags: &Vec<bool>)
    ensures
        final(buf)@ == old(buf)@ + encode_flags(flags@),
{
    let mut i: usize = 0;
    assert(buf@ =~= old(buf)@ + encode_flags(flags@).subrange(0, 0));
    while i < flags.len()
        invariant
            i <= flags@.len(),
            buf@ == old(buf)@ + encode_flags(flags@).subrange(0, i as int),
        decreases flags@.len() - i,
    {
        buf.push(if flags[i] { 1u8 } else { 0u8 });
        i += 1;
        assert(buf@ =~= old(buf)@ + encode_flags(flags@).subrange(0, i as int));
    }
    assert(encode_flags(flags@).subrange(0, flags@.len() as int) =~= encode_flags(flags@));
}

/// Appends the encoding of `digests` to `buf`.
pub(crate) fn write_digests(buf: &mut Vec<u8>, digests: &Vec<Bytes32>)
    ensures
        final(buf)@ == old(buf)@ + encode_digests(digests@),
{
    let mut i: usize = 0;
    assert(buf@ =~= old(buf)@ + encode_digests(digests@.take(0)));
    while i < digests.len()
        invariant
            i <= digests@.len(),
            buf@ == old(buf)@ + encode_digests(digests@.take(i as int)),
        decreases digests@.len() - i,
    {
        push_digest(buf, &digests[i]);
        proof {
            lemma_concat_chunks_push(digest_seqs(digests@.take(i as int)), digests@[i as int]@);
            assert(digest_seqs(digests@.take(i as int)).push(digests@[i as int]@)
                =~= digest_seqs(digests@.take(i + 1)));
            assert(buf@ =~= old(buf)@ + encode_digests(digests@.take(i + 1)));
        }
        i += 1;
    }
    assert(digests@.take(digests@.len() as int) =~= digests@);
}

/// Reads the `count` flags whose encoding starts at `at`, if each of those
/// bytes encodes a flag.
pub(crate) fn read_flags(bytes: &[u8], at: usize, count: usize) -> (flags: Option<Vec<bool>>)
    requires
        at + count <= bytes@.len(),
    ensures
        flags is Some == are_flags(bytes@, at as int, count as int),
        flags matches Some(f) ==> f@ == flags_at(bytes@, at as int, count as nat)
            && encode_flags(f@) == bytes@.subrange(at as int, at + count),
{
    let len = bytes.len();
    let mut flags: Vec<bool> = Vec::new();
    let mut i: usize = 0;
    while i < count
        invariant
            i <= count,
            at + count <= bytes@.len(),
            len == bytes@.len(),
            are_flags(bytes@, at as int, i as int),
            flags@ == flags_at(bytes@, at as int, i as nat),
        decreases count - i,
    {
        let byte = bytes[at + i];
        if byte > 1 {
            assert(!are_flags(bytes@, at as int, count as int)) by {
                if are_flags(bytes@, at as int, count as int) {
                    assert(bytes@[at + i] == 0u8 || bytes@[at + i] == 1u8);
                }
            }
            return None;
        }
        flags.push(byte == 1);
        i += 1;
        assert(flags@ =~= flags_at(bytes@, at as int, i as nat));
    }
    assert(encode_flags(flags@) =~= bytes@.subrange(at as int, at + count));
    Some(flags)
}

/// Reads the `count` digests whose encoding starts at `at`.
pub(crate) fn read_digests(bytes: &[u8], at: usize, count: usize) -> (digests: Vec<Bytes32>)
    requires
        at + 32 * count <= bytes@.len(),
    ensures
        digests@ == digests_at(bytes@, at as int, count as nat),
        encode_digests(digests@) == bytes@.subrange(at as int, at + 32 * count),
{
    let len = bytes.len();
    let mut digests: Vec<Bytes32> = Vec::new();
    let mut i: usize = 0;
    while i < count
        invariant
            i <= count,
            at + 32 * count <= bytes@.len(),
            len == bytes@.len(),
            digests@ == digests_at(bytes@, at as int, i as nat),
            forall|k: int|
                0 <= k < i ==> (#[trigger] digests@[k])@ == bytes@.subrange(
                    at + 32 * k,
                    at + 32 * k + 32,
                ),
        decreases count - i,
    {
        digests.push(read_digest(bytes, at + 32 * i));
        i += 1;
        assert(digests@ =~= digests_at(bytes@, at as int, i as nat));
    }
    proof {
        let enc = encode_digests(digests@);
        let part = bytes@.subrange(at as int, at + 32 * count);
        assert forall|k: int| 0 <= k < enc.len() implies enc[k] == part[k] by {
            let row = k / 32;
            assert(digests@[row]@ == bytes@.subrange(at + 32 * row, at + 32 * row + 32));
            assert(digests@[row]@[k % 32] == bytes@[at + 32 * row + k % 32]);
        }
        assert(enc =~= part);
    }
    digests
}

/// The flags read where their encoding stands are the flags.
pub proof fn lemma_flags_read(bytes: Seq<u8>, at: int, flags: Seq<bool>)
    requires
        0 <= at,
        at + flags.len() <= bytes.len(),
        bytes.subrange(at, at + flags.len()) == encode_flags(flags),
    ensures
        are_flags(bytes, at, flags.len() as int),
        flags_at(bytes, at, flags.len()) == flags,
{
    let enc = encode_flags(flags);
    assert forall|i: int| at <= i < at + flags.len() implies #[trigger] bytes[i] == 0u8
        || bytes[i] == 1u8 by {
        assert(bytes[i] == bytes.subrange(at, at + flags.len())[i - at]);
    }
    assert forall|i: int| 0 <= i < flags.len() implies flags_at(bytes, at, flags.len())[i]
        == flags[i] by {
        assert(bytes[at + i] == bytes.subrange(at, at + flags.len())[i]);
    }
    assert(flags_at(bytes, at, flags.len()) =~= flags);
}

/// The digests read where their encoding stands are the digests.
pub proof fn lemma_digests_read(bytes: Seq<u8>, at: int, digests: Seq<Bytes32>)
    requires
        0 <= at,
        at + 32 * digests.len() <= bytes.len(),
        bytes.subrange(at, at + 32 * digests.len()) == encode_digests(digests),
    ensures
        digests_at(bytes, at, digests.len()) == digests,
{
    let enc = encode_digests(digests);
    assert forall|i: int| 0 <= i < digests.len() implies digests_at(bytes, at, digests.len())[i]
        == digests[i] by {
        let part = bytes.subrange(at + 32 * i, at + 32 * i + 32);
        assert(digests[i]@.len() == 32);
        assert forall|j: int| 0 <= j < 32 implies part[j] == digests[i]@[j] by {
            assert(bytes[at + 32 * i + j] == bytes.subrange(at, at + 32 * digests.len())[32 * i
                + j]);
            assert((32 * i + j) / 32 == i);
            assert((32 * i + j) % 32 == j);
        }
        assert(part =~= digests[i]@);
        lemma_digest_at(bytes, at + 32 * i, digests[i]);
    }
    assert(digests_at(bytes, at, digests.len()) =~= digests);
}

} // verus!
