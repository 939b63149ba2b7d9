//! Notifications recorded by the engine.
//!
//! Delivery to an external sink is fire-and-forget and not needed for
//! correctness, so the engine only appends each payload to its event log;
//! an embedding may forward them.

use vstd::prelude::*;

use crate::game::GameType;

verus! {

/// Payload recorded when a lobby is created.
#[derive(Clone, Debug, PartialEq, Eq)]
pub struct GameCreatedData {
    pub game_id: u64,
    pub creator: u64,
    pub game_type: GameType,
    pub number_of_players: u32,
    pub starting_balance: u128,
    pub stake_amount: u128,
    pub code: Vec<u8>,
    pub player_symbol: u32,
}

/// Payload recorded when a player is admitted.
#[derive(Clone, Copy, Debug, PartialEq, Eq, Structural)]
pub struct PlayerJoinedData {
    pub game_id: u64,
    pub player: u64,
    pub player_symbol: u32,
    pub joined_count: u32,
}

/// Payload recorded when a lobby starts.
#[derive(Clone, Copy, Debug, PartialEq, Eq, Structural)]
pub struct GameStartedData {
    pub game_id: u64,
    pub player_count: u32,
}

/// Payload recorded when a player voluntarily exits.
#[derive(Clone, Copy, Debug, PartialEq, Eq, Structural)]
pub struct PlayerExitedData {
    pub game_id: u64,
    pub player: u64,
}

/// Payload recorded when the owner withdraws pooled funds.
#[derive(Clone, Copy, Debug, PartialEq, Eq, Structural)]
pub struct FundsWithdrawnData {
    pub to: u64,
    pub amount: u128,
}

/// One entry of the engine's event log, in emission order.
#[derive(Clone, Debug, PartialEq, Eq)]
pub enum GameEvent {
    GameCreated(GameCreatedData),
    PlayerJoined(PlayerJoinedData),
    GameStarted(GameStartedData),
    PlayerExited(PlayerExitedData),
    FundsWithdrawn(FundsWithdrawnData),
}

} // verus!
