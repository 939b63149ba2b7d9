//! Game lobby lifecycle and stake escrow engine.
//!
//! A lobby (a `Game`) is created by a registered address, admits further
//! registered players while it is `Waiting`, is started by its creator once at
//! least two players are present, and allows voluntary exit while it is
//! `InProgress`. Joining a lobby with a positive stake moves that stake from
//! the joining player's token balance into the pool held by the contract
//! address; the pool attributable to a lobby is always `stake_amount`
//! multiplied by the roster length. Every operation either fully succeeds or
//! leaves the state unchanged and reports an [`errors::Error`].
//!
//! The engine is self-contained and works on plain values so that every rule
//! can be verified. Its host-environment collaborators appear only at their
//! interface boundary: a participant address is a plain `u64` identifier (an
//! embedding maps real account addresses onto them), the host's clock and
//! ledger sequence are handed in as arguments where an operation records them,
//! authorization is expressed by the acting address each operation names, the
//! fungible token service is modeled by [`ledger::TokenLedger`] with exactly
//! the all-or-nothing `transfer` the escrow rules rely on, and notifications
//! are appended to an event log for the embedding to forward.

pub mod contract;
pub mod errors;
pub mod events;
pub mod game;
pub mod ledger;

pub use contract::TycoonContract;
pub use errors::Error;
pub use events::GameEvent;
pub use game::{CollectibleInfo, Game, GameSettings, GameStatus, GameType, User};
pub use ledger::TokenLedger;
