//! The state transition of a lean consensus chain.
//!
//! A [`State`] and a [`SignedBlock`] go in, and either the next state comes
//! out or the reason why the block is refused
//! ([`State::state_transition`]). On the way the state is advanced to the
//! block's slot ([`slots`]), the block's header is checked and applied
//! ([`header`]), and the votes that the block carries are counted
//! ([`attestations`]): a target with the votes of two thirds of the
//! validators is justified, and its source may be finalized.
//!
//! The containers are in [`block`], [`checkpoint`], [`config`], [`state`]
//! and [`vote`]; their hash tree roots in [`ssz`]; their byte encoding in
//! [`encoding`]. The votes in progress are a mapping ([`justifications`])
//! that a state keeps flattened ([`ledger`]). Which slots may be justified
//! is decided in [`slot`].
pub mod ascending;
pub mod attestations;
pub mod block;
pub mod chain;
pub mod checkpoint;
pub mod config;
pub mod encoding;
pub mod error;
pub mod header;
pub mod justifications;
pub mod ledger;
pub mod slot;
pub mod slots;
pub mod ssz;
pub mod state;
pub mod test_vectors;
pub mod transition;
pub mod types;
pub mod vote;

pub use block::{hash_tree_root, Block, BlockBody, BlockHeader, SignedBlock};
pub use checkpoint::Checkpoint;
pub use config::Config;
pub use config::Config as ContainerConfig;
pub use error::TransitionError;
pub use justifications::Justifications;
pub use slot::Slot;
pub use ssz::{compute_hash_tree_root, SszHash};
pub use state::State;
pub use types::{Bytes32, Uint64, ValidatorIndex};
pub use vote::{SignedVote, Vote};
