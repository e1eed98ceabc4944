//! The encodings of a block body, a block and a signed block.
use crate::block::{
    Block, BlockBody, BlockView, SignedBlock, SignedBlockView, MAX_ATTESTATIONS,
};
use crate::encoding::fixed::{lemma_signed_vote_read, lemma_signed_vote_round_trip};
use crate::encoding::{
    digest_at, lemma_digest_at, lemma_u64_at, read_digest, read_u32, read_u64, u32_at, u64_at,
    write_u32, write_u64,
};
use crate::slot::Slot;
use crate::ssz::push_digest;
use crate::types::ValidatorIndex;
use crate::vote::SignedVote;
use vstd::bytes::{
    lemma_auto_spec_u32_to_from_le_bytes, lemma_auto_spec_u64_to_from_le_bytes,
    spec_u32_to_le_bytes, spec_u64_to_le_bytes,
};
use vstd::prelude::*;
use vstd::slice::slice_subrange;

verus! {

/// The length of the fixed part of an encoded block body: the offset of
/// its attestations.
pub const BODY_FIXED_SIZE: usize = 4;

/// The length of the fixed part of an encoded block: its fields of fixed
/// length, and the offset of its body.
pub const BLOCK_FIXED_SIZE: usize = 84;

/// The length of the fixed part of an encoded signed block: the offset of
/// the block, and the signature.
pub const SIGNED_BLOCK_FIXED_SIZE: usize = 36;

/// The encoding of a list of signed votes: one vote after the other.
pub open spec fn encode_votes(votes: Seq<SignedVote>) -> Seq<u8> {
    Seq::new(168 * votes.len(), |k: int| votes[k / 168].encoding()[k % 168])
}

/// The `count` signed votes whose encoding starts at `at`.
pub open spec fn votes_at(bytes: Seq<u8>, at: int, count: nat) -> Seq<SignedVote> {
    Seq::new(count, |i: int| SignedVote::read(bytes, at + 168 * i))
}

/// The encoding of a block body: the offset of the attestations, then the
/// attestations.
pub open spec fn encode_body(attestations: Seq<SignedVote>) -> Seq<u8> {
    spec_u32_to_le_bytes(BODY_FIXED_SIZE as u32) + encode_votes(attestations)
}

/// The attestations of the block body that `bytes` encode, if they encode
/// one: the offset is there and points behind itself, the votes are whole,
/// and there are no more of them than a body can hold.
pub open spec fn decode_body(bytes: Seq<u8>) -> Option<Seq<SignedVote>> {
    if bytes.len() >= BODY_FIXED_SIZE && u32_at(bytes, 0) == BODY_FIXED_SIZE && (bytes.len() - 4)
        % 168 == 0 && (bytes.len() - 4) / 168 <= MAX_ATTESTATIONS {
        Some(votes_at(bytes, 4, ((bytes.len() - 4) / 168) as nat))
    } else {
        None
    }
}

impl BlockView {
    /// The encoding: slot, proposer, parent root, state root, the offset of
    /// the body, then the body.
    pub open spec fn encoding(self) -> Seq<u8> {
        spec_u64_to_le_bytes(self.slot.0) + spec_u64_to_le_bytes(self.proposer_index.0)
            + self.parent_root@ + self.state_root@ + spec_u32_to_le_bytes(BLOCK_FIXED_SIZE as u32)
            + encode_body(self.body)
    }

    /// The block that `bytes` encode, if they encode one.
    pub open spec fn decoding(bytes: Seq<u8>) -> Option<BlockView> {
        if bytes.len() >= BLOCK_FIXED_SIZE && u32_at(bytes, 80) == BLOCK_FIXED_SIZE {
            match decode_body(bytes.subrange(BLOCK_FIXED_SIZE as int, bytes.len() as int)) {
                Some(body) => Some(
                    BlockView {
                        slot: Slot(u64_at(bytes, 0)),
                        proposer_index: ValidatorIndex(u64_at(bytes, 8)),
                        parent_root: digest_at(bytes, 16),
                        state_root: digest_at(bytes, 48),
                        body,
                    },
                ),
                None => None,
            }
        } else {
            None
        }
    }
}

impl SignedBlockView {
    /// The encoding: the offset of the block, the signature, then the block.
    pub open spec fn encoding(self) -> Seq<u8> {
        spec_u32_to_le_bytes(SIGNED_BLOCK_FIXED_SIZE as u32) + self.signature@
            + self.message.encoding()
    }

    /// The signed block that `bytes` encode, if they encode one.
    pub open spec fn decoding(bytes: Seq<u8>) -> Option<SignedBlockView> {
        if bytes.len() >= SIGNED_BLOCK_FIXED_SIZE && u32_at(bytes, 0) == SIGNED_BLOCK_FIXED_SIZE {
            match BlockView::decoding(
                bytes.subrange(SIGNED_BLOCK_FIXED_SIZE as int, bytes.len() as int),
            ) {
                Some(message) => Some(SignedBlockView { message, signature: digest_at(bytes, 4) }),
                None => None,
            }
        } else {
            None
        }
    }
}

/// Adding a vote to a list adds its encoding to the list's.
pub proof fn lemma_encode_votes_push(votes: Seq<SignedVote>, vote: SignedVote)
    ensures
        encode_votes(votes.push(vote)) == encode_votes(votes) + vote.encoding(),
{
    lemma_signed_vote_round_trip(vote);
    let l = encode_votes(votes.push(vote));
    let r = encode_votes(votes) + vote.encoding();
    assert(l.len() == r.len());
    assert forall|k: int| 0 <= k < l.len() implies l[k] == r[k] by {
        if k < 168 * votes.len() {
            assert(k / 168 < votes.len());
        } else {
            assert(k / 168 == votes.len());
            assert(k % 168 == k - 168 * votes.len());
        }
    }
    assert(l =~= r);
}

/// The votes read where their encoding stands are the votes.
pub proof fn lemma_votes_read(bytes: Seq<u8>, at: int, votes: Seq<SignedVote>)
    requires
        0 <= at,
        at + 168 * votes.len() <= bytes.len(),
        bytes.subrange(at, at + 168 * votes.len()) == encode_votes(votes),
    ensures
        votes_at(bytes, at, votes.len()) == votes,
{
    assert forall|i: int| 0 <= i < votes.len() implies votes_at(bytes, at, votes.len())[i]
        == votes[i] by {
        lemma_signed_vote_round_trip(votes[i]);
        let part = bytes.subrange(at + 168 * i, at + 168 * i + 168);
        assert forall|j: int| 0 <= j < 168 implies part[j] == votes[i].encoding()[j] by {
            assert(bytes[at + 168 * i + j] == bytes.subrange(at, at + 168 * votes.len())[168 * i
                + j]);
            assert((168 * i + j) / 168 == i);
            assert((168 * i + j) % 168 == j);
        }
        assert(part =~= votes[i].encoding());
        lemma_signed_vote_read(bytes, at + 168 * i, votes[i]);
    }
    assert(votes_at(bytes, at, votes.len()) =~= votes);
}

/// Decoding the encoding of a block body gives its attestations back.
pub proof fn lemma_body_round_trip(attestations: Seq<SignedVote>)
    requires
        attestations.len() <= MAX_ATTESTATIONS,
    ensures
        decode_body(encode_body(attestations)) == Some(attestations),
        encode_body(attestations).len() == 4 + 168 * attestations.len(),
{
    lemma_auto_spec_u32_to_from_le_bytes();
    let enc = encode_body(attestations);
    assert(enc.subrange(0, 4) =~= spec_u32_to_le_bytes(BODY_FIXED_SIZE as u32));
    assert(enc.subrange(4, 4 + 168 * (attestations.len() as int)) =~= encode_votes(attestations));
    lemma_votes_read(enc, 4, attestations);
    assert((enc.len() - 4) / 168 == attestations.len());
}

/// Decoding the encoding of a block gives the block back, and so its root.
pub proof fn lemma_block_round_trip(block: BlockView)
    requires
        block.body.len() <= MAX_ATTESTATIONS,
    ensures
        BlockView::decoding(block.encoding()) == Some(block),
        block.encoding().len() == 88 + 168 * block.body.len(),
{
    lemma_auto_spec_u64_to_from_le_bytes();
    lemma_auto_spec_u32_to_from_le_bytes();
    lemma_body_round_trip(block.body);
    let enc = block.encoding();
    assert(enc.subrange(0, 8) =~= spec_u64_to_le_bytes(block.slot.0));
    assert(enc.subrange(8, 16) =~= spec_u64_to_le_bytes(block.proposer_index.0));
    assert(enc.subrange(16, 48) =~= block.parent_root@);
    assert(enc.subrange(48, 80) =~= block.state_root@);
    assert(enc.subrange(80, 84) =~= spec_u32_to_le_bytes(BLOCK_FIXED_SIZE as u32));
    assert(enc.subrange(84, enc.len() as int) =~= encode_body(block.body));
    lemma_u64_at(enc, 0, block.slot.0);
    lemma_u64_at(enc, 8, block.proposer_index.0);
    lemma_digest_at(enc, 16, block.parent_root);
    lemma_digest_at(enc, 48, block.state_root);
}

/// Decoding the encoding of a signed block gives the signed block back.
pub proof fn lemma_signed_block_round_trip(signed: SignedBlockView)
    requires
        signed.message.body.len() <= MAX_ATTESTATIONS,
    ensures
        SignedBlockView::decoding(signed.encoding()) == Some(signed),
{
    lemma_auto_spec_u32_to_from_le_bytes();
    lemma_block_round_trip(signed.message);
    let enc = signed.encoding();
    assert(enc.subrange(0, 4) =~= spec_u32_to_le_bytes(SIGNED_BLOCK_FIXED_SIZE as u32));
    assert(enc.subrange(4, 36) =~= signed.signature@);
    assert(enc.subrange(36, enc.len() as int) =~= signed.message.encoding());
    lemma_digest_at(enc, 4, signed.signature);
}

/// Appends the encoding of `votes` to `buf`.
pub(crate) fn write_votes(buf: &mut Vec<u8>, votes: &Vec<SignedVote>)
    ensures
        final(buf)@ == old(buf)@ + encode_votes(votes@),
{
    let mut i: usize = 0;
    assert(buf@ =~= old(buf)@ + encode_votes(votes@.take(0)));
    while i < votes.len()
        invariant
            i <= votes@.len(),
            buf@ == old(buf)@ + encode_votes(votes@.take(i as int)),
        decreases votes@.len() - i,
    {
        votes[i].write(buf);
        proof {
            lemma_encode_votes_push(votes@.take(i as int), votes@[i as int]);
            assert(votes@.take(i as int).push(votes@[i as int]) =~= votes@.take(i + 1));
            assert(buf@ =~= old(buf)@ + encode_votes(votes@.take(i + 1)));
        }
        i += 1;
    }
    assert(votes@.take(votes@.len() as int) =~= votes@);
}

/// Reads the `count` signed votes whose encoding starts at `at`.
pub(crate) fn read_votes(bytes: &[u8], at: usize, count: usize) -> (votes: Vec<SignedVote>)
    requires
        at + 168 * count <= bytes@.len(),
    ensures
        votes@ == votes_at(bytes@, at as int, count as nat),
        encode_votes(votes@) == bytes@.subrange(at as int, at + 168 * count),
{
    let len = bytes.len();
    let mut votes: Vec<SignedVote> = Vec::new();
    let mut i: usize = 0;
    while i < count
        invariant
            i <= count,
            at + 168 * count <= bytes@.len(),
            len == bytes@.len(),
            votes@ == votes_at(bytes@, at as int, i as nat),
            forall|k: int|
                0 <= k < i ==> (#[trigger] votes@[k]).encoding() == bytes@.subrange(
                    at + 168 * k,
                    at + 168 * k + 168,
                ),
        decreases count - i,
    {
        votes.push(SignedVote::read_at(bytes, at + 168 * i));
        i += 1;
        assert(votes@ =~= votes_at(bytes@, at as int, i as nat));
    }
    proof {
        let enc = encode_votes(votes@);
        let part = bytes@.subrange(at as int, at + 168 * count);
        assert forall|k: int| 0 <= k < enc.len() implies enc[k] == part[k] by {
            let row = k / 168;
            assert(votes@[row].encoding() == bytes@.subrange(
                at + 168 * row,
                at + 168 * row + 168,
            ));
            assert(votes@[row].encoding()[k % 168] == bytes@[at + 168 * row + k % 168]);
        }
        assert(enc =~= part);
    }
    votes
}

impl BlockBody {
    /// The encoding of the body, if it holds no more attestations than a
    /// body can.
    pub fn serialize(&self) -> (bytes: Option<Vec<u8>>)
        ensures
            bytes is Some == (self@.len() <= MAX_ATTESTATIONS),
            bytes matches Some(b) ==> b@ == encode_body(self@),
    {
        if self.attestations.len() > MAX_ATTESTATIONS {
            return None;
        }
        let mut bytes: Vec<u8> = Vec::new();
        write_u32(&mut bytes, BODY_FIXED_SIZE as u32);
        write_votes(&mut bytes, &self.attestations);
        assert(bytes@ =~= encode_body(self@));
        Some(bytes)
    }

    /// The body that `bytes` encode, if they encode one.
    pub fn deserialize(bytes: &[u8]) -> (body: Option<BlockBody>)
        ensures
            body is Some == decode_body(bytes@) is Some,
            body matches Some(b) ==> decode_body(bytes@) == Some(b@) && encode_body(b@)
                == bytes@,
    {
        let len = bytes.len();
        if len < BODY_FIXED_SIZE {
            return None;
        }
        if read_u32(bytes, 0) != BODY_FIXED_SIZE as u32 || (len - 4) % 168 != 0 || (len - 4) / 168
            > MAX_ATTESTATIONS {
            return None;
        }
        let body = BlockBody { attestations: read_votes(bytes, 4, (len - 4) / 168) };
        assert(encode_body(body@) =~= bytes@);
        Some(body)
    }
}

impl Block {
    /// The encoding of the block, if its body holds no more attestations
    /// than a body can.
    pub fn serialize(&self) -> (bytes: Option<Vec<u8>>)
        ensures
            bytes is Some == (self@.body.len() <= MAX_ATTESTATIONS),
            bytes matches Some(b) ==> b@ == self@.encoding(),
    {
        if self.body.attestations.len() > MAX_ATTESTATIONS {
            return None;
        }
        let mut bytes: Vec<u8> = Vec::new();
        write_u64(&mut bytes, self.slot.0);
        write_u64(&mut bytes, self.proposer_index.0);
        push_digest(&mut bytes, &self.parent_root);
        push_digest(&mut bytes, &self.state_root);
        write_u32(&mut bytes, BLOCK_FIXED_SIZE as u32);
        write_u32(&mut bytes, BODY_FIXED_SIZE as u32);
        write_votes(&mut bytes, &self.body.attestations);
        assert(bytes@ =~= self@.encoding());
        Some(bytes)
    }

    /// The block that `bytes` encode, if they encode one.
    pub fn deserialize(bytes: &[u8]) -> (block: Option<Block>)
        ensures
            block is Some == BlockView::decoding(bytes@) is Some,
            block matches Some(b) ==> BlockView::decoding(bytes@) == Some(b@) && b@.encoding()
                == bytes@,
    {
        let len = bytes.len();
        if len < BLOCK_FIXED_SIZE {
            return None;
        }
        if read_u32(bytes, 80) != BLOCK_FIXED_SIZE as u32 {
            return None;
        }
        let body = match BlockBody::deserialize(slice_subrange(bytes, BLOCK_FIXED_SIZE, len)) {
            Some(body) => body,
            None => {
                return None;
            },
        };
        let block = Block {
            slot: Slot(read_u64(bytes, 0)),
            proposer_index: ValidatorIndex(read_u64(bytes, 8)),
            parent_root: read_digest(bytes, 16),
            state_root: read_digest(bytes, 48),
            body,
        };
        assert(block@.encoding() =~= bytes@);
        Some(block)
    }
}

impl SignedBlock {
    /// The encoding of the signed block, if its body holds no more
    /// attestations than a body can.
    pub fn serialize(&self) -> (bytes: Option<Vec<u8>>)
        ensures
            bytes is Some == (self@.message.body.len() <= MAX_ATTESTATIONS),
            bytes matches Some(b) ==> b@ == self@.encoding(),
    {
        let mut message = match self.message.serialize() {
            Some(message) => message,
            None => {
                return None;
            },
        };
        let mut bytes: Vec<u8> = Vec::new();
        write_u32(&mut bytes, SIGNED_BLOCK_FIXED_SIZE as u32);
        push_digest(&mut bytes, &self.signature);
        bytes.append(&mut message);
        assert(bytes@ =~= self@.encoding());
        Some(bytes)
    }

    /// The signed block that `bytes` encode, if they encode one.
    pub fn deserialize(bytes: &[u8]) -> (signed: Option<SignedBlock>)
        ensures
            signed is Some == SignedBlockView::decoding(bytes@) is Some,
            signed matches Some(b) ==> SignedBlockView::decoding(bytes@) == Some(b@)
                && b@.encoding() == bytes@,
    {
        let len = bytes.len();
        if len < SIGNED_BLOCK_FIXED_SIZE {
            return None;
        }
        if read_u32(bytes, 0) != SIGNED_BLOCK_FIXED_SIZE as u32 {
            return None;
        }
        let rest = slice_subrange(bytes, SIGNED_BLOCK_FIXED_SIZE, len);
        let message = match Block::deserialize(rest) {
            Some(message) => message,
            None => {
                return None;
            },
        };
        let signed = SignedBlock { message, signature: read_digest(bytes, 4) };
        assert(signed@.encoding() =~= bytes@);
        Some(signed)
    }
}

} // verus!
