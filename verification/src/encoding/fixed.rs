//! The encodings of the containers of fixed length.
use crate::block::BlockHeader;
use crate::checkpoint::Checkpoint;
use crate::config::Config;
use crate::encoding::{
    digest_at, lemma_digest_at, lemma_u64_at, lemma_window, read_digest, read_u64, u64_at,
    write_u64,
};
use crate::slot::Slot;
use crate::ssz::{push_digest, SszHash};
use crate::types::{Uint64, ValidatorIndex};
use crate::vote::{SignedVote, Vote};
use vstd::bytes::{lemma_auto_spec_u64_to_from_le_bytes, spec_u64_to_le_bytes};
use vstd::prelude::*;

verus! {

/// The length of an encoded configuration.
pub const CONFIG_SIZE: usize = 16;

/// The length of an encoded checkpoint.
pub const CHECKPOINT_SIZE: usize = 40;

/// The length of an encoded block header.
pub const HEADER_SIZE: usize = 112;

/// The length of an encoded vote.
pub const VOTE_SIZE: usize = 136;

/// The length of an encoded signed vote.
pub const SIGNED_VOTE_SIZE: usize = 168;

impl Config {
    /// The encoding: the number of validators, then the genesis time.
    pub open spec fn encoding(self) -> Seq<u8> {
        spec_u64_to_le_bytes(self.num_validators) + spec_u64_to_le_bytes(self.genesis_time)
    }

    /// The configuration whose encoding starts at `at`.
    pub open spec fn read(bytes: Seq<u8>, at: int) -> Config {
        Config { num_validators: u64_at(bytes, at), genesis_time: u64_at(bytes, at + 8) }
    }

    /// The configuration that `bytes` encode, if they encode one.
    pub open spec fn decoding(bytes: Seq<u8>) -> Option<Config> {
        if bytes.len() == CONFIG_SIZE {
            Some(Config::read(bytes, 0))
        } else {
            None
        }
    }

    /// Appends the encoding to `buf`.
    pub(crate) fn write(&self, buf: &mut Vec<u8>)
        ensures
            final(buf)@ == old(buf)@ + self.encoding(),
            self.encoding().len() == CONFIG_SIZE,
    {
        write_u64(buf, self.num_validators);
        write_u64(buf, self.genesis_time);
        proof {
            lemma_auto_spec_u64_to_from_le_bytes();
            assert(buf@ =~= old(buf)@ + self.encoding());
        }
    }

    /// Reads the configuration whose encoding starts at `at`.
    pub(crate) fn read_at(bytes: &[u8], at: usize) -> (config: Config)
        requires
            at + CONFIG_SIZE <= bytes@.len(),
        ensures
            config == Config::read(bytes@, at as int),
            config.encoding() == bytes@.subrange(at as int, at + CONFIG_SIZE),
    {
        let len = bytes.len();
        let config = Config {
            num_validators: read_u64(bytes, at),
            genesis_time: read_u64(bytes, at + 8),
        };
        proof {
            assert(config.encoding() =~= bytes@.subrange(at as int, at + CONFIG_SIZE));
        }
        config
    }

    /// The encoding of the configuration.
    pub fn serialize(&self) -> (bytes: Vec<u8>)
        ensures
            bytes@ == self.encoding(),
            bytes@.len() == CONFIG_SIZE,
    {
        let mut bytes: Vec<u8> = Vec::new();
        self.write(&mut bytes);
        assert(bytes@ =~= self.encoding());
        bytes
    }

    /// The configuration that `bytes` encode, if they encode one.
    pub fn deserialize(bytes: &[u8]) -> (config: Option<Config>)
        ensures
            config == Config::decoding(bytes@),
            config matches Some(decoded) ==> decoded.encoding() == bytes@,
    {
        if bytes.len() == CONFIG_SIZE {
            assert(bytes@.subrange(0, CONFIG_SIZE as int) =~= bytes@);
            Some(Config::read_at(bytes, 0))
        } else {
            None
        }
    }
}

/// A configuration is read where its encoding stands.
pub proof fn lemma_config_read(bytes: Seq<u8>, at: int, config: Config)
    requires
        0 <= at,
        at + CONFIG_SIZE <= bytes.len(),
        bytes.subrange(at, at + CONFIG_SIZE) == config.encoding(),
    ensures
        Config::read(bytes, at) == config,
{
    lemma_auto_spec_u64_to_from_le_bytes();
    let enc = config.encoding();
    lemma_window(bytes, at, CONFIG_SIZE as int, 0, 8);
    lemma_window(bytes, at, CONFIG_SIZE as int, 8, 16);
    assert(enc.subrange(0, 8) =~= spec_u64_to_le_bytes(config.num_validators));
    assert(enc.subrange(8, 16) =~= spec_u64_to_le_bytes(config.genesis_time));
    lemma_u64_at(bytes, at, config.num_validators);
    lemma_u64_at(bytes, at + 8, config.genesis_time);
}

/// Decoding the encoding of a configuration gives the configuration back.
pub proof fn lemma_config_round_trip(config: Config)
    ensures
        config.encoding().len() == CONFIG_SIZE,
        Config::decoding(config.encoding()) == Some(config),
        Config::decoding(config.encoding())->Some_0.tree_root() == config.tree_root(),
{
    lemma_auto_spec_u64_to_from_le_bytes();
    let enc = config.encoding();
    assert(enc.subrange(0, CONFIG_SIZE as int) =~= enc);
    lemma_config_read(enc, 0, config);
}

impl Checkpoint {
    /// The encoding: the root, then the slot.
    pub open spec fn encoding(self) -> Seq<u8> {
        self.root@ + spec_u64_to_le_bytes(self.slot.0)
    }

    /// The checkpoint whose encoding starts at `at`.
    pub open spec fn read(bytes: Seq<u8>, at: int) -> Checkpoint {
        Checkpoint { root: digest_at(bytes, at), slot: Slot(u64_at(bytes, at + 32)) }
    }

    /// The checkpoint that `bytes` encode, if they encode one.
    pub open spec fn decoding(bytes: Seq<u8>) -> Option<Checkpoint> {
        if bytes.len() == CHECKPOINT_SIZE {
            Some(Checkpoint::read(bytes, 0))
        } else {
            None
        }
    }

    /// Appends the encoding to `buf`.
    pub(crate) fn write(&self, buf: &mut Vec<u8>)
        ensures
            final(buf)@ == old(buf)@ + self.encoding(),
            self.encoding().len() == CHECKPOINT_SIZE,
    {
        push_digest(buf, &self.root);
        write_u64(buf, self.slot.0);
        proof {
            lemma_auto_spec_u64_to_from_le_bytes();
            assert(buf@ =~= old(buf)@ + self.encoding());
        }
    }

    /// Reads the checkpoint whose encoding starts at `at`.
    pub(crate) fn read_at(bytes: &[u8], at: usize) -> (checkpoint: Checkpoint)
        requires
            at + CHECKPOINT_SIZE <= bytes@.len(),
        ensures
            checkpoint == Checkpoint::read(bytes@, at as int),
            checkpoint.encoding() == bytes@.subrange(at as int, at + CHECKPOINT_SIZE),
    {
        let len = bytes.len();
        let checkpoint = Checkpoint {
            root: read_digest(bytes, at),
            slot: Slot(read_u64(bytes, at + 32)),
        };
        proof {
            assert(checkpoint.encoding() =~= bytes@.subrange(at as int, at + CHECKPOINT_SIZE));
        }
        checkpoint
    }

    /// The encoding of the checkpoint.
    pub fn serialize(&self) -> (bytes: Vec<u8>)
        ensures
            bytes@ == self.encoding(),
            bytes@.len() == CHECKPOINT_SIZE,
    {
        let mut bytes: Vec<u8> = Vec::new();
        self.write(&mut bytes);
        assert(bytes@ =~= self.encoding());
        bytes
    }

    /// The checkpoint that `bytes` encode, if they encode one.
    pub fn deserialize(bytes: &[u8]) -> (checkpoint: Option<Checkpoint>)
        ensures
            checkpoint == Checkpoint::decoding(bytes@),
            checkpoint matches Some(decoded) ==> decoded.encoding() == bytes@,
    {
        if bytes.len() == CHECKPOINT_SIZE {
            assert(bytes@.subrange(0, CHECKPOINT_SIZE as int) =~= bytes@);
            Some(Checkpoint::read_at(bytes, 0))
        } else {
            None
        }
    }
}

/// A checkpoint is read where its encoding stands.
pub proof fn lemma_checkpoint_read(bytes: Seq<u8>, at: int, checkpoint: Checkpoint)
    requires
        0 <= at,
        at + CHECKPOINT_SIZE <= bytes.len(),
        bytes.subrange(at, at + CHECKPOINT_SIZE) == checkpoint.encoding(),
    ensures
        Checkpoint::read(bytes, at) == checkpoint,
{
    lemma_auto_spec_u64_to_from_le_bytes();
    let enc = checkpoint.encoding();
    lemma_window(bytes, at, CHECKPOINT_SIZE as int, 0, 32);
    lemma_window(bytes, at, CHECKPOINT_SIZE as int, 32, 40);
    assert(enc.subrange(0, 32) =~= checkpoint.root@);
    assert(enc.subrange(32, 40) =~= spec_u64_to_le_bytes(checkpoint.slot.0));
    lemma_digest_at(bytes, at, checkpoint.root);
    lemma_u64_at(bytes, at + 32, checkpoint.slot.0);
}

/// Decoding the encoding of a checkpoint gives the checkpoint back, and so
/// its root.
pub proof fn lemma_checkpoint_round_trip(checkpoint: Checkpoint)
    ensures
        checkpoint.encoding().len() == CHECKPOINT_SIZE,
        Checkpoint::decoding(checkpoint.encoding()) == Some(checkpoint),
        Checkpoint::decoding(checkpoint.encoding())->Some_0.tree_root()
            == checkpoint.tree_root(),
{
    lemma_auto_spec_u64_to_from_le_bytes();
    let enc = checkpoint.encoding();
    assert(enc.subrange(0, CHECKPOINT_SIZE as int) =~= enc);
    lemma_checkpoint_read(enc, 0, checkpoint);
}

impl BlockHeader {
    /// The encoding: slot, proposer, parent root, state root, body root.
    pub open spec fn encoding(self) -> Seq<u8> {
        spec_u64_to_le_bytes(self.slot.0) + spec_u64_to_le_bytes(self.proposer_index.0)
            + self.parent_root@ + self.state_root@ + self.body_root@
    }

    /// The header whose encoding starts at `at`.
    pub open spec fn read(bytes: Seq<u8>, at: int) -> BlockHeader {
        BlockHeader {
            slot: Slot(u64_at(bytes, at)),
            proposer_index: ValidatorIndex(u64_at(bytes, at + 8)),
            parent_root: digest_at(bytes, at + 16),
            state_root: digest_at(bytes, at + 48),
            body_root: digest_at(bytes, at + 80),
        }
    }

    /// The header that `bytes` encode, if they encode one.
    pub open spec fn decoding(bytes: Seq<u8>) -> Option<BlockHeader> {
        if bytes.len() == HEADER_SIZE {
            Some(BlockHeader::read(bytes, 0))
        } else {
            None
        }
    }

    /// Appends the encoding to `buf`.
    pub(crate) fn write(&self, buf: &mut Vec<u8>)
        ensures
            final(buf)@ == old(buf)@ + self.encoding(),
            self.encoding().len() == HEADER_SIZE,
    {
        write_u64(buf, self.slot.0);
        write_u64(buf, self.proposer_index.0);
        push_digest(buf, &self.parent_root);
        push_digest(buf, &self.state_root);
        push_digest(buf, &self.body_root);
        proof {
            lemma_auto_spec_u64_to_from_le_bytes();
            assert(buf@ =~= old(buf)@ + self.encoding());
        }
    }

    /// Reads the header whose encoding starts at `at`.
    pub(crate) fn read_at(bytes: &[u8], at: usize) -> (header: BlockHeader)
        requires
            at + HEADER_SIZE <= bytes@.len(),
        ensures
            header == BlockHeader::read(bytes@, at as int),
            header.encoding() == bytes@.subrange(at as int, at + HEADER_SIZE),
    {
        let len = bytes.len();
        let header = BlockHeader {
            slot: Slot(read_u64(bytes, at)),
            proposer_index: ValidatorIndex(read_u64(bytes, at + 8)),
            parent_root: read_digest(bytes, at + 16),
            state_root: read_digest(bytes, at + 48),
            body_root: read_digest(bytes, at + 80),
        };
        proof {
            assert(header.encoding() =~= bytes@.subrange(at as int, at + HEADER_SIZE));
        }
        header
    }

    /// The encoding of the header.
    pub fn serialize(&self) -> (bytes: Vec<u8>)
        ensures
            bytes@ == self.encoding(),
            bytes@.len() == HEADER_SIZE,
    {
        let mut bytes: Vec<u8> = Vec::new();
        self.write(&mut bytes);
        assert(bytes@ =~= self.encoding());
        bytes
    }

    /// The header that `bytes` encode, if they encode one.
    pub fn deserialize(bytes: &[u8]) -> (header: Option<BlockHeader>)
        ensures
            header == BlockHeader::decoding(bytes@),
            header matches Some(decoded) ==> decoded.encoding() == bytes@,
    {
        if bytes.len() == HEADER_SIZE {
            assert(bytes@.subrange(0, HEADER_SIZE as int) =~= bytes@);
            Some(BlockHeader::read_at(bytes, 0))
        } else {
            None
        }
    }
}

/// A header is read where its encoding stands.
pub proof fn lemma_header_read(bytes: Seq<u8>, at: int, header: BlockHeader)
    requires
        0 <= at,
        at + HEADER_SIZE <= bytes.len(),
        bytes.subrange(at, at + HEADER_SIZE) == header.encoding(),
    ensures
        BlockHeader::read(bytes, at) == header,
{
    lemma_auto_spec_u64_to_from_le_bytes();
    let enc = header.encoding();
    lemma_window(bytes, at, HEADER_SIZE as int, 0, 8);
    lemma_window(bytes, at, HEADER_SIZE as int, 8, 16);
    lemma_window(bytes, at, HEADER_SIZE as int, 16, 48);
    lemma_window(bytes, at, HEADER_SIZE as int, 48, 80);
    lemma_window(bytes, at, HEADER_SIZE as int, 80, 112);
    assert(enc.subrange(0, 8) =~= spec_u64_to_le_bytes(header.slot.0));
    assert(enc.subrange(8, 16) =~= spec_u64_to_le_bytes(header.proposer_index.0));
    assert(enc.subrange(16, 48) =~= header.parent_root@);
    assert(enc.subrange(48, 80) =~= header.state_root@);
    assert(enc.subrange(80, 112) =~= header.body_root@);
    lemma_u64_at(bytes, at, header.slot.0);
    lemma_u64_at(bytes, at + 8, header.proposer_index.0);
    lemma_digest_at(bytes, at + 16, header.parent_root);
    lemma_digest_at(bytes, at + 48, header.state_root);
    lemma_digest_at(bytes, at + 80, header.body_root);
}

/// Decoding the encoding of a header gives the header back, and so its root.
pub proof fn lemma_header_round_trip(header: BlockHeader)
    ensures
        header.encoding().len() == HEADER_SIZE,
        BlockHeader::decoding(header.encoding()) == Some(header),
        BlockHeader::decoding(header.encoding())->Some_0.tree_root() == header.tree_root(),
{
    lemma_auto_spec_u64_to_from_le_bytes();
    let enc = header.encoding();
    assert(enc.subrange(0, HEADER_SIZE as int) =~= enc);
    lemma_header_read(enc, 0, header);
}

impl Vote {
    /// The encoding: validator, slot, then the head, the target and the
    /// source checkpoint.
    pub open spec fn encoding(self) -> Seq<u8> {
        spec_u64_to_le_bytes(self.validator_id.0) + spec_u64_to_le_bytes(self.slot.0)
            + self.head.encoding() + self.target.encoding() + self.source.encoding()
    }

    /// The vote whose encoding starts at `at`.
    pub open spec fn read(bytes: Seq<u8>, at: int) -> Vote {
        Vote {
            validator_id: Uint64(u64_at(bytes, at)),
            slot: Slot(u64_at(bytes, at + 8)),
            head: Checkpoint::read(bytes, at + 16),
            target: Checkpoint::read(bytes, at + 56),
            source: Checkpoint::read(bytes, at + 96),
        }
    }

    /// The vote that `bytes` encode, if they encode one.
    pub open spec fn decoding(bytes: Seq<u8>) -> Option<Vote> {
        if bytes.len() == VOTE_SIZE {
            Some(Vote::read(bytes, 0))
        } else {
            None
        }
    }

    /// Appends the encoding to `buf`.
    pub(crate) fn write(&self, buf: &mut Vec<u8>)
        ensures
            final(buf)@ == old(buf)@ + self.encoding(),
            self.encoding().len() == VOTE_SIZE,
    {
        write_u64(buf, self.validator_id.0);
        write_u64(buf, self.slot.0);
        self.head.write(buf);
        self.target.write(buf);
        self.source.write(buf);
        proof {
            lemma_auto_spec_u64_to_from_le_bytes();
            assert(buf@ =~= old(buf)@ + self.encoding());
        }
    }

    /// Reads the vote whose encoding starts at `at`.
    pub(crate) fn read_at(bytes: &[u8], at: usize) -> (vote: Vote)
        requires
            at + VOTE_SIZE <= bytes@.len(),
        ensures
            vote == Vote::read(bytes@, at as int),
            vote.encoding() == bytes@.subrange(at as int, at + VOTE_SIZE),
    {
        let len = bytes.len();
        let vote = Vote {
            validator_id: Uint64(read_u64(bytes, at)),
            slot: Slot(read_u64(bytes, at + 8)),
            head: Checkpoint::read_at(bytes, at + 16),
            target: Checkpoint::read_at(bytes, at + 56),
            source: Checkpoint::read_at(bytes, at + 96),
        };
        proof {
            assert(vote.encoding() =~= bytes@.subrange(at as int, at + VOTE_SIZE));
        }
        vote
    }

    /// The encoding of the vote.
    pub fn serialize(&self) -> (bytes: Vec<u8>)
        ensures
            bytes@ == self.encoding(),
            bytes@.len() == VOTE_SIZE,
    {
        let mut bytes: Vec<u8> = Vec::new();
        self.write(&mut bytes);
        assert(bytes@ =~= self.encoding());
        bytes
    }

    /// The vote that `bytes` encode, if they encode one.
    pub fn deserialize(bytes: &[u8]) -> (vote: Option<Vote>)
        ensures
            vote == Vote::decoding(bytes@),
            vote matches Some(decoded) ==> decoded.encoding() == bytes@,
    {
        if bytes.len() == VOTE_SIZE {
            assert(bytes@.subrange(0, VOTE_SIZE as int) =~= bytes@);
            Some(Vote::read_at(bytes, 0))
        } else {
            None
        }
    }
}

/// A vote is read where its encoding stands.
pub proof fn lemma_vote_read(bytes: Seq<u8>, at: int, vote: Vote)
    requires
        0 <= at,
        at + VOTE_SIZE <= bytes.len(),
        bytes.subrange(at, at + VOTE_SIZE) == vote.encoding(),
    ensures
        Vote::read(bytes, at) == vote,
{
    lemma_auto_spec_u64_to_from_le_bytes();
    let enc = vote.encoding();
    lemma_window(bytes, at, VOTE_SIZE as int, 0, 8);
    lemma_window(bytes, at, VOTE_SIZE as int, 8, 16);
    lemma_window(bytes, at, VOTE_SIZE as int, 16, 56);
    lemma_window(bytes, at, VOTE_SIZE as int, 56, 96);
    lemma_window(bytes, at, VOTE_SIZE as int, 96, 136);
    assert(enc.subrange(0, 8) =~= spec_u64_to_le_bytes(vote.validator_id.0));
    assert(enc.subrange(8, 16) =~= spec_u64_to_le_bytes(vote.slot.0));
    assert(enc.subrange(16, 56) =~= vote.head.encoding());
    assert(enc.subrange(56, 96) =~= vote.target.encoding());
    assert(enc.subrange(96, 136) =~= vote.source.encoding());
    lemma_u64_at(bytes, at, vote.validator_id.0);
    lemma_u64_at(bytes, at + 8, vote.slot.0);
    lemma_checkpoint_read(bytes, at + 16, vote.head);
    lemma_checkpoint_read(bytes, at + 56, vote.target);
    lemma_checkpoint_read(bytes, at + 96, vote.source);
}

/// Decoding the encoding of a vote gives the vote back, and so its root.
pub proof fn lemma_vote_round_trip(vote: Vote)
    ensures
        vote.encoding().len() == VOTE_SIZE,
        Vote::decoding(vote.encoding()) == Some(vote),
        Vote::decoding(vote.encoding())->Some_0.tree_root() == vote.tree_root(),
{
    lemma_auto_spec_u64_to_from_le_bytes();
    let enc = vote.encoding();
    assert(enc.subrange(0, VOTE_SIZE as int) =~= enc);
    lemma_vote_read(enc, 0, vote);
}

impl SignedVote {
    /// The encoding: the vote, then the signature.
    pub open spec fn encoding(self) -> Seq<u8> {
        self.data.encoding() + self.signature@
    }

    /// The signed vote whose encoding starts at `at`.
    pub open spec fn read(bytes: Seq<u8>, at: int) -> SignedVote {
        SignedVote { data: Vote::read(bytes, at), signature: digest_at(bytes, at + 136) }
    }

    /// The signed vote that `bytes` encode, if they encode one.
    pub open spec fn decoding(bytes: Seq<u8>) -> Option<SignedVote> {
        if bytes.len() == SIGNED_VOTE_SIZE {
            Some(SignedVote::read(bytes, 0))
        } else {
            None
        }
    }

    /// Appends the encoding to `buf`.
    pub(crate) fn write(&self, buf: &mut Vec<u8>)
        ensures
            final(buf)@ == old(buf)@ + self.encoding(),
            self.encoding().len() == SIGNED_VOTE_SIZE,
    {
        self.data.write(buf);
        push_digest(buf, &self.signature);
        proof {
            assert(buf@ =~= old(buf)@ + self.encoding());
        }
    }

    /// Reads the signed vote whose encoding starts at `at`.
    pub(crate) fn read_at(bytes: &[u8], at: usize) -> (vote: SignedVote)
        requires
            at + SIGNED_VOTE_SIZE <= bytes@.len(),
        ensures
            vote == SignedVote::read(bytes@, at as int),
            vote.encoding() == bytes@.subrange(at as int, at + SIGNED_VOTE_SIZE),
    {
        let len = bytes.len();
        let vote = SignedVote {
            data: Vote::read_at(bytes, at),
            signature: read_digest(bytes, at + 136),
        };
        proof {
            assert(vote.encoding() =~= bytes@.subrange(at as int, at + SIGNED_VOTE_SIZE));
        }
        vote
    }

    /// The encoding of the signed vote.
    pub fn serialize(&self) -> (bytes: Vec<u8>)
        ensures
            bytes@ == self.encoding(),
            bytes@.len() == SIGNED_VOTE_SIZE,
    {
        let mut bytes: Vec<u8> = Vec::new();
        self.write(&mut bytes);
        assert(bytes@ =~= self.encoding());
        bytes
    }

    /// The signed vote that `bytes` encode, if they encode one.
    pub fn deserialize(bytes: &[u8]) -> (vote: Option<SignedVote>)
        ensures
            vote == SignedVote::decoding(bytes@),
            vote matches Some(decoded) ==> decoded.encoding() == bytes@,
    {
        if bytes.len() == SIGNED_VOTE_SIZE {
            assert(bytes@.subrange(0, SIGNED_VOTE_SIZE as int) =~= bytes@);
            Some(SignedVote::read_at(bytes, 0))
        } else {
            None
        }
    }
}

/// A signed vote is read where its encoding stands.
pub proof fn lemma_signed_vote_read(bytes: Seq<u8>, at: int, vote: SignedVote)
    requires
        0 <= at,
        at + SIGNED_VOTE_SIZE <= bytes.len(),
        bytes.subrange(at, at + SIGNED_VOTE_SIZE) == vote.encoding(),
    ensures
        SignedVote::read(bytes, at) == vote,
{
    lemma_vote_round_trip(vote.data);
    let enc = vote.encoding();
    lemma_window(bytes, at, SIGNED_VOTE_SIZE as int, 0, 136);
    lemma_window(bytes, at, SIGNED_VOTE_SIZE as int, 136, 168);
    assert(enc.subrange(0, 136) =~= vote.data.encoding());
    assert(enc.subrange(136, 168) =~= vote.signature@);
    lemma_vote_read(bytes, at, vote.data);
    lemma_digest_at(bytes, at + 136, vote.signature);
}

/// Decoding the encoding of a signed vote gives the signed vote back, and so
/// its root.
pub proof fn lemma_signed_vote_round_trip(vote: SignedVote)
    ensures
        vote.encoding().len() == SIGNED_VOTE_SIZE,
        SignedVote::decoding(vote.encoding()) == Some(vote),
        SignedVote::decoding(vote.encoding())->Some_0.tree_root() == vote.tree_root(),
{
    lemma_vote_round_trip(vote.data);
    let enc = vote.encoding();
    assert(enc.subrange(0, SIGNED_VOTE_SIZE as int) =~= enc);
    lemma_signed_vote_read(enc, 0, vote);
}

} // verus!
