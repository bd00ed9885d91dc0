//! A token registry: mints, owns, prices, and trades uniquely identified
//! digital assets within a deterministic, single-threaded state-transition
//! model.
//!
//! The registry state (token store, ownership index, mint counter, event
//! log) is held in an explicit [`Pallet`] value. Token identifiers are
//! content hashes of the canonically encoded token record; the hash itself
//! is computed by an outside crate behind a trusted wrapper, while the
//! canonical encoding and every rule of the registry are verified here.

pub mod codec;
pub mod genesis;
pub mod hashing;
pub mod laws;
pub mod ops;
pub mod state;

pub use genesis::GenesisConfig;
pub use state::Error;
pub use state::Event;
pub use state::Nft;
pub use state::Pallet;
pub use state::TokenId;
