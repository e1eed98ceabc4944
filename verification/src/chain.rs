//! Core consensus parameters and chain presets
//! for the Lean Consensus Experimental Chain.
use vstd::prelude::*;

verus! {

/// A value in basis points (1/10000).
/// Valid range: 0 <= value <= 10000
#[derive(Clone, Copy, Debug, PartialEq, Eq, Structural, PartialOrd, Ord, Hash)]
pub struct BasisPoint(pub u64);

impl BasisPoint {
    /// The greatest value in basis points: the whole.
    pub const MAX: u64 = 10_000;

    /// The value is within the valid range.
    pub open spec fn wf(self) -> bool {
        self.0 <= BasisPoint::MAX
    }

    /// Create a new BasisPoint, returning `None` if the value is invalid.
    pub fn new(value: u64) -> (r: Option<BasisPoint>)
        ensures
            r == if value <= BasisPoint::MAX {
                Some(BasisPoint(value))
            } else {
                None
            },
            r matches Some(bps) ==> bps.wf(),
    {
        if value <= BasisPoint::MAX {
            Some(BasisPoint(value))
        } else {
            None
        }
    }

    /// The value, in basis points.
    #[inline]
    pub fn get(&self) -> (value: u64)
        ensures
            value == self.0,
    {
        self.0
    }
}

// --- Time Parameters ---
/// Number of intervals per slot for forkchoice processing.
pub const INTERVALS_PER_SLOT: u64 = 4;

/// The fixed duration of a single slot in milliseconds.
pub const SLOT_DURATION_MS: u64 = 4000;

/// The fixed duration of a single slot in seconds.
pub const SECONDS_PER_SLOT: u64 = SLOT_DURATION_MS / 1000;

/// Seconds per forkchoice processing interval.
pub const SECONDS_PER_INTERVAL: u64 = SECONDS_PER_SLOT / INTERVALS_PER_SLOT;

/// The number of slots to look back for justification.
pub const JUSTIFICATION_LOOKBACK_SLOTS: u64 = 3;

// --- Deadlines, in basis points of a slot ---
/// Until when a proposer may reorganize the chain.
pub const PROPOSER_REORG_CUTOFF_BPS: u64 = 2500;

/// When votes are due.
pub const VOTE_DUE_BPS: u64 = 5000;

/// When fast confirmations are due.
pub const FAST_CONFIRM_DUE_BPS: u64 = 7500;

/// From when on the view is frozen.
pub const VIEW_FREEZE_CUTOFF_BPS: u64 = 7500;

// --- State List Length Presets ---
/// The most historical roots: 2^18.
pub const HISTORICAL_ROOTS_LIMIT: u64 = 262_144;

/// The most validators: 2^12.
pub const VALIDATOR_REGISTRY_LIMIT: u64 = 4096;

// --- Chain Configuration Struct ---
/// The parameters of a chain.
#[derive(Clone, Copy, Debug)]
pub struct ChainConfig {
    pub slot_duration_ms: u64,
    pub second_per_slot: u64,
    pub justification_lookback_slots: u64,
    pub proposer_reorg_cutoff_bps: BasisPoint,
    pub vote_due_bps: BasisPoint,
    pub fast_confirm_due_bps: BasisPoint,
    pub view_freeze_cutoff_bps: BasisPoint,
    pub historical_roots_limit: u64,
    pub validator_registry_limit: u64,
}

impl ChainConfig {
    /// The deadlines are valid basis points, and a slot's seconds are its
    /// milliseconds.
    pub open spec fn wf(self) -> bool {
        &&& self.proposer_reorg_cutoff_bps.wf()
        &&& self.vote_due_bps.wf()
        &&& self.fast_confirm_due_bps.wf()
        &&& self.view_freeze_cutoff_bps.wf()
        &&& self.second_per_slot * 1000 == self.slot_duration_ms
    }
}

/// The Devnet Chain Configuration.
pub fn devnet_config() -> (config: ChainConfig)
    ensures
        config.wf(),
        config == (ChainConfig {
            slot_duration_ms: SLOT_DURATION_MS,
            second_per_slot: SECONDS_PER_SLOT,
            justification_lookback_slots: JUSTIFICATION_LOOKBACK_SLOTS,
            proposer_reorg_cutoff_bps: BasisPoint(PROPOSER_REORG_CUTOFF_BPS),
            vote_due_bps: BasisPoint(VOTE_DUE_BPS),
            fast_confirm_due_bps: BasisPoint(FAST_CONFIRM_DUE_BPS),
            view_freeze_cutoff_bps: BasisPoint(VIEW_FREEZE_CUTOFF_BPS),
            historical_roots_limit: HISTORICAL_ROOTS_LIMIT,
            validator_registry_limit: VALIDATOR_REGISTRY_LIMIT,
        }),
{
    ChainConfig {
        slot_duration_ms: SLOT_DURATION_MS,
        second_per_slot: SECONDS_PER_SLOT,
        justification_lookback_slots: JUSTIFICATION_LOOKBACK_SLOTS,
        proposer_reorg_cutoff_bps: BasisPoint(PROPOSER_REORG_CUTOFF_BPS),
        vote_due_bps: BasisPoint(VOTE_DUE_BPS),
        fast_confirm_due_bps: BasisPoint(FAST_CONFIRM_DUE_BPS),
        view_freeze_cutoff_bps: BasisPoint(VIEW_FREEZE_CUTOFF_BPS),
        historical_roots_limit: HISTORICAL_ROOTS_LIMIT,
        validator_registry_limit: VALIDATOR_REGISTRY_LIMIT,
    }
}

} // verus!
