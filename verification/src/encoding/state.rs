//! The encoding of a state: its fields of fixed length and the offsets of
//! its four lists, then the lists.
use crate::block::BlockHeader;
use crate::checkpoint::Checkpoint;
use crate::config::Config;
use crate::encoding::fixed::{
    lemma_checkpoint_read, lemma_checkpoint_round_trip, lemma_config_read,
    lemma_config_round_trip, lemma_header_read, lemma_header_round_trip,
};
use crate::encoding::{
    are_flags, digests_at, encode_digests, encode_flags, flags_at, lemma_digests_read,
    lemma_flags_read, lemma_u64_at, read_digests, read_flags, read_u32, read_u64, u32_at, u64_at,
    write_digests, write_flags, write_u32, write_u64,
};
use crate::slot::Slot;
use crate::state::{
    State, StateView, HISTORY_LIMIT, JUSTIFICATIONS_VALIDATORS_MAX, JUSTIFICATION_ROOTS_LIMIT,
};
use vstd::bytes::{
    lemma_auto_spec_u32_to_from_le_bytes, lemma_auto_spec_u64_to_from_le_bytes,
    spec_u32_to_le_bytes, spec_u64_to_le_bytes,
};
use vstd::prelude::*;

verus! {

/// The length of the fixed part of an encoded state: its fields of fixed
/// length, and the offsets of its four lists.
pub const STATE_FIXED_SIZE: usize = 232;

impl StateView {
    /// The encoding of the four lists, one after the other.
    pub open spec fn lists_encoding(self) -> Seq<u8> {
        encode_digests(self.historical_block_hashes) + encode_flags(self.justified_slots)
            + encode_digests(self.justifications_roots) + encode_flags(
            self.justifications_validators,
        )
    }

    /// The encoding of the fields of fixed length, and after them the
    /// offsets at which the lists start.
    pub open spec fn fixed_encoding(self) -> Seq<u8> {
        let first = STATE_FIXED_SIZE as int;
        let second = first + 32 * self.historical_block_hashes.len();
        let third = second + self.justified_slots.len();
        let fourth = third + 32 * self.justifications_roots.len();
        self.config.encoding() + spec_u64_to_le_bytes(self.slot.0)
            + self.latest_block_header.encoding() + self.latest_justified.encoding()
            + self.latest_finalized.encoding() + spec_u32_to_le_bytes(first as u32)
            + spec_u32_to_le_bytes(second as u32) + spec_u32_to_le_bytes(third as u32)
            + spec_u32_to_le_bytes(fourth as u32)
    }

    /// The encoding of a state: the fixed part, then the lists.
    pub open spec fn encoding(self) -> Seq<u8> {
        self.fixed_encoding() + self.lists_encoding()
    }

    /// The state that `bytes` encode, if they encode one: the fixed part is
    /// there, the first list starts where it ends, the offsets do not
    /// decrease and lie within the bytes, the digests are whole, every flag
    /// is the byte 0 or 1, and no list is longer than its capacity.
    pub open spec fn decoding(bytes: Seq<u8>) -> Option<StateView> {
        if bytes.len() < STATE_FIXED_SIZE {
            None
        } else {
            let first = u32_at(bytes, 216) as int;
            let second = u32_at(bytes, 220) as int;
            let third = u32_at(bytes, 224) as int;
            let fourth = u32_at(bytes, 228) as int;
            let end = bytes.len() as int;
            if first == STATE_FIXED_SIZE && first <= second <= third <= fourth <= end && (second
                - first) % 32 == 0 && (second - first) / 32 <= HISTORY_LIMIT && third - second
                <= HISTORY_LIMIT && are_flags(bytes, second, third - second) && (fourth - third)
                % 32 == 0 && (fourth - third) / 32 <= JUSTIFICATION_ROOTS_LIMIT && end - fourth
                <= JUSTIFICATIONS_VALIDATORS_MAX && are_flags(bytes, fourth, end - fourth) {
                Some(
                    StateView {
                        config: Config::read(bytes, 0),
                        slot: Slot(u64_at(bytes, 16)),
                        latest_block_header: BlockHeader::read(bytes, 24),
                        latest_justified: Checkpoint::read(bytes, 136),
                        latest_finalized: Checkpoint::read(bytes, 176),
                        historical_block_hashes: digests_at(
                            bytes,
                            first,
                            ((second - first) / 32) as nat,
                        ),
                        justified_slots: flags_at(bytes, second, (third - second) as nat),
                        justifications_roots: digests_at(
                            bytes,
                            third,
                            ((fourth - third) / 32) as nat,
                        ),
                        justifications_validators: flags_at(bytes, fourth, (end - fourth) as nat),
                    },
                )
            } else {
                None
            }
        }
    }
}

impl State {
    /// The encoding of the state, if none of its lists is longer than its
    /// capacity.
    pub fn serialize(&self) -> (bytes: Option<Vec<u8>>)
        ensures
            bytes is Some == self@.within_limits(),
            bytes matches Some(b) ==> b@ == self@.encoding(),
    {
        if self.historical_block_hashes.len() > HISTORY_LIMIT || self.justified_slots.len()
            > HISTORY_LIMIT || self.justifications_roots.len() > JUSTIFICATION_ROOTS_LIMIT
            || self.justifications_validators.len() > JUSTIFICATIONS_VALIDATORS_MAX {
            return None;
        }
        let first: usize = STATE_FIXED_SIZE;
        let second: usize = first + 32 * self.historical_block_hashes.len();
        let third: usize = second + self.justified_slots.len();
        let fourth: usize = third + 32 * self.justifications_roots.len();
        let mut bytes: Vec<u8> = Vec::new();
        self.config.write(&mut bytes);
        write_u64(&mut bytes, self.slot.0);
        self.latest_block_header.write(&mut bytes);
        self.latest_justified.write(&mut bytes);
        self.latest_finalized.write(&mut bytes);
        write_u32(&mut bytes, first as u32);
        write_u32(&mut bytes, second as u32);
        write_u32(&mut bytes, third as u32);
        write_u32(&mut bytes, fourth as u32);
        assert(bytes@ =~= self@.fixed_encoding());
        write_digests(&mut bytes, &self.historical_block_hashes);
        write_flags(&mut bytes, &self.justified_slots);
        write_digests(&mut bytes, &self.justifications_roots);
        write_flags(&mut bytes, &self.justifications_validators);
        assert(bytes@ =~= self@.encoding());
        Some(bytes)
    }

    /// The state that `bytes` encode, if they encode one.
    pub fn deserialize(bytes: &[u8]) -> (state: Option<State>)
        ensures
            state is Some == StateView::decoding(bytes@) is Some,
            state matches Some(s) ==> StateView::decoding(bytes@) == Some(s@) && s@.encoding()
                == bytes@,
    {
        let end = bytes.len();
        if end < STATE_FIXED_SIZE {
            return None;
        }
        let first = read_u32(bytes, 216) as usize;
        let second = read_u32(bytes, 220) as usize;
        let third = read_u32(bytes, 224) as usize;
        let fourth = read_u32(bytes, 228) as usize;
        if first != STATE_FIXED_SIZE || second < first || third < second || fourth < third || end
            < fourth {
            return None;
        }
        if (second - first) % 32 != 0 || (second - first) / 32 > HISTORY_LIMIT || third - second
            > HISTORY_LIMIT || (fourth - third) % 32 != 0 || (fourth - third) / 32
            > JUSTIFICATION_ROOTS_LIMIT || end - fourth > JUSTIFICATIONS_VALIDATORS_MAX {
            return None;
        }
        let justified_slots = match read_flags(bytes, second, third - second) {
            Some(flags) => flags,
            None => {
                return None;
            },
        };
        let justifications_validators = match read_flags(bytes, fourth, end - fourth) {
            Some(flags) => flags,
            None => {
                return None;
            },
        };
        let state = State {
            config: Config::read_at(bytes, 0),
            slot: Slot(read_u64(bytes, 16)),
            latest_block_header: BlockHeader::read_at(bytes, 24),
            latest_justified: Checkpoint::read_at(bytes, 136),
            latest_finalized: Checkpoint::read_at(bytes, 176),
            historical_block_hashes: read_digests(bytes, first, (second - first) / 32),
            justified_slots,
            justifications_roots: read_digests(bytes, third, (fourth - third) / 32),
            justifications_validators,
        };
        proof {
            let fixed = state@.fixed_encoding();
            assert(fixed =~= bytes@.subrange(0, STATE_FIXED_SIZE as int));
            assert(state@.lists_encoding() =~= bytes@.subrange(
                STATE_FIXED_SIZE as int,
                end as int,
            ));
            assert(state@.encoding() =~= bytes@);
        }
        Some(state)
    }
}

/// Decoding the encoding of a state gives the state back, and so its root.
pub proof fn lemma_state_round_trip(s: StateView)
    requires
        s.within_limits(),
    ensures
        StateView::decoding(s.encoding()) == Some(s),
        StateView::decoding(s.encoding())->Some_0.tree_root() == s.tree_root(),
{
    lemma_auto_spec_u64_to_from_le_bytes();
    lemma_auto_spec_u32_to_from_le_bytes();
    lemma_config_round_trip(s.config);
    lemma_header_round_trip(s.latest_block_header);
    lemma_checkpoint_round_trip(s.latest_justified);
    lemma_checkpoint_round_trip(s.latest_finalized);
    let enc = s.encoding();
    let fixed = s.fixed_encoding();
    let hashes = encode_digests(s.historical_block_hashes);
    let slots = encode_flags(s.justified_slots);
    let roots = encode_digests(s.justifications_roots);
    let validators = encode_flags(s.justifications_validators);
    let first = STATE_FIXED_SIZE as int;
    let second = first + 32 * s.historical_block_hashes.len();
    let third = second + s.justified_slots.len();
    let fourth = third + 32 * s.justifications_roots.len();
    let end = fourth + s.justifications_validators.len();
    assert(fixed.len() == STATE_FIXED_SIZE);
    assert(enc.len() == end);

    // the fixed part
    assert(enc.subrange(0, 16) =~= s.config.encoding());
    assert(enc.subrange(16, 24) =~= spec_u64_to_le_bytes(s.slot.0));
    assert(enc.subrange(24, 136) =~= s.latest_block_header.encoding());
    assert(enc.subrange(136, 176) =~= s.latest_justified.encoding());
    assert(enc.subrange(176, 216) =~= s.latest_finalized.encoding());
    assert(enc.subrange(216, 220) =~= spec_u32_to_le_bytes(first as u32));
    assert(enc.subrange(220, 224) =~= spec_u32_to_le_bytes(second as u32));
    assert(enc.subrange(224, 228) =~= spec_u32_to_le_bytes(third as u32));
    assert(enc.subrange(228, 232) =~= spec_u32_to_le_bytes(fourth as u32));
    lemma_config_read(enc, 0, s.config);
    lemma_u64_at(enc, 16, s.slot.0);
    lemma_header_read(enc, 24, s.latest_block_header);
    lemma_checkpoint_read(enc, 136, s.latest_justified);
    lemma_checkpoint_read(enc, 176, s.latest_finalized);
    assert(u32_at(enc, 216) == first);
    assert(u32_at(enc, 220) == second);
    assert(u32_at(enc, 224) == third);
    assert(u32_at(enc, 228) == fourth);

    // the lists
    assert(enc.subrange(first, second) =~= hashes);
    assert(enc.subrange(second, third) =~= slots);
    assert(enc.subrange(third, fourth) =~= roots);
    assert(enc.subrange(fourth, end) =~= validators);
    lemma_digests_read(enc, first, s.historical_block_hashes);
    lemma_flags_read(enc, second, s.justified_slots);
    lemma_digests_read(enc, third, s.justifications_roots);
    lemma_flags_read(enc, fourth, s.justifications_validators);
    assert((second - first) / 32 == s.historical_block_hashes.len());
    assert((fourth - third) / 32 == s.justifications_roots.len());
}

} // verus!
