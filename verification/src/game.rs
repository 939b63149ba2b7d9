//! Lobby records: configuration, lifecycle status, roster and symbol set.

use vstd::prelude::*;

verus! {

/// Lobby visibility: anyone may join a public lobby; a private lobby requires
/// the stored code, byte for byte.
#[derive(Clone, Copy, Debug, PartialEq, Eq, Structural)]
pub enum GameType {
    Public,
    Private,
}

/// Lifecycle status. Transitions only ever advance: `Waiting` to `InProgress`.
/// `Finished` is declared for completeness but unreachable: no operation of
/// this engine produces it.
#[derive(Clone, Copy, Debug, PartialEq, Eq, Structural)]
pub enum GameStatus {
    /// Accepting players.
    Waiting,
    /// Actively being played.
    InProgress,
    /// Concluded; reaching this state is future work.
    Finished,
}

/// Configuration chosen at creation time, immutable afterwards.
#[derive(Debug, PartialEq, Eq)]
pub struct GameSettings {
    pub game_type: GameType,
    /// Target player count, between 2 and 8 inclusive.
    pub number_of_players: u32,
    /// Per-player starting balance; informational, consumed by gameplay.
    pub starting_balance: u128,
    /// Stake each participant escrows on admission; zero means a free lobby.
    pub stake_amount: u128,
    /// Access code; non-empty exactly when the lobby is private.
    pub code: Vec<u8>,
    /// The creator's chosen symbol.
    pub player_symbol: u32,
}

/// One lobby: identity, configuration, status, ordered roster and the symbols
/// taken so far. The roster lists participant addresses in join order, the
/// creator first; `symbols[i]` is the symbol taken by the `i`-th admitted
/// participant. A symbol, once taken, is never freed, so after exits the
/// symbol set may be longer than the roster.
#[derive(Debug, PartialEq, Eq)]
pub struct Game {
    pub id: u64,
    pub creator: u64,
    pub settings: GameSettings,
    pub status: GameStatus,
    pub created_at: u64,
    pub players: Vec<u64>,
    pub symbols: Vec<u32>,
}

impl Game {
    /// The standing invariants of a lobby record, established at creation and
    /// preserved by every operation:
    /// no address appears twice in the roster, no symbol appears twice in the
    /// symbol set, the roster never exceeds the configured target, a private
    /// lobby has a non-empty code, and while the lobby is waiting the roster
    /// and symbol set run in parallel with the creator at index 0.
    pub open spec fn wf(self) -> bool {
        &&& 2 <= self.settings.number_of_players <= 8
        &&& self.players@.no_duplicates()
        &&& self.symbols@.no_duplicates()
        &&& self.players@.len() <= self.symbols@.len()
        &&& self.symbols@.len() <= self.settings.number_of_players
        &&& (self.settings.game_type is Private ==> self.settings.code@.len() > 0)
        &&& (self.status is Waiting ==> {
            &&& self.players@.len() == self.symbols@.len()
            &&& self.players@.len() >= 1
            &&& self.players@[0] == self.creator
        })
        &&& !(self.status is Finished)
    }

    /// The escrow pool attributable to this lobby: the configured stake for
    /// each roster member, creator included. Kept derived rather than stored.
    pub open spec fn escrow(self) -> int {
        self.settings.stake_amount * self.players@.len()
    }

    /// `other` carries the same lobby record, content for content.
    pub open spec fn same_as(self, other: Game) -> bool {
        &&& other.id == self.id
        &&& other.creator == self.creator
        &&& other.settings.same_as(self.settings)
        &&& other.status == self.status
        &&& other.created_at == self.created_at
        &&& other.players@ == self.players@
        &&& other.symbols@ == self.symbols@
    }
}

impl GameSettings {
    /// `other` carries the same configuration, content for content.
    pub open spec fn same_as(self, other: GameSettings) -> bool {
        &&& other.game_type == self.game_type
        &&& other.number_of_players == self.number_of_players
        &&& other.starting_balance == self.starting_balance
        &&& other.stake_amount == self.stake_amount
        &&& other.code@ == self.code@
        &&& other.player_symbol == self.player_symbol
    }
}

impl Clone for GameSettings {
    /// The clone carries the same configuration.
    fn clone(&self) -> (r: GameSettings)
        ensures
            r.same_as(*self),
    {
        let code = self.code.clone();
        proof {
            assert(code@ =~= self.code@);
        }
        GameSettings {
            game_type: self.game_type,
            number_of_players: self.number_of_players,
            starting_balance: self.starting_balance,
            stake_amount: self.stake_amount,
            code,
            player_symbol: self.player_symbol,
        }
    }
}

impl Clone for Game {
    /// The clone carries the same lobby record.
    fn clone(&self) -> (r: Game)
        ensures
            r.same_as(*self),
    {
        let players = self.players.clone();
        let symbols = self.symbols.clone();
        proof {
            assert(players@ =~= self.players@);
            assert(symbols@ =~= self.symbols@);
        }
        Game {
            id: self.id,
            creator: self.creator,
            settings: self.settings.clone(),
            status: self.status,
            created_at: self.created_at,
            players,
            symbols,
        }
    }
}

/// A registered participant.
#[derive(Debug, PartialEq, Eq)]
pub struct User {
    pub id: u64,
    pub username: Vec<u8>,
    pub address: u64,
    pub registered_at: u64,
    pub games_played: u32,
    pub games_won: u32,
}

impl User {
    /// `other` carries the same participant record, content for content.
    pub open spec fn same_as(self, other: User) -> bool {
        &&& other.id == self.id
        &&& other.username@ == self.username@
        &&& other.address == self.address
        &&& other.registered_at == self.registered_at
        &&& other.games_played == self.games_played
        &&& other.games_won == self.games_won
    }
}

impl Clone for User {
    /// The clone carries the same participant record.
    fn clone(&self) -> (r: User)
        ensures
            r.same_as(*self),
    {
        let username = self.username.clone();
        proof {
            assert(username@ =~= self.username@);
        }
        User {
            id: self.id,
            username,
            address: self.address,
            registered_at: self.registered_at,
            games_played: self.games_played,
            games_won: self.games_won,
        }
    }
}

/// Catalog data for a collectible: perk, strength, prices and shop stock.
#[derive(Clone, Copy, Debug, PartialEq, Eq, Structural)]
pub struct CollectibleInfo {
    pub perk: u32,
    pub strength: u32,
    pub tyc_price: u128,
    pub usdc_price: u128,
    pub shop_stock: u64,
}

} // verus!
