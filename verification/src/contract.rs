//! The lobby lifecycle and stake escrow engine.

use vstd::prelude::*;

use crate::errors::Error;
use crate::events::{GameCreatedData, GameEvent};
use crate::game::{CollectibleInfo, Game, GameSettings, GameStatus, GameType, User};
use crate::ledger::TokenLedger;

verus! {

/// No address appears twice among the registered participants.
pub open spec fn unique_user_addresses(s: Seq<User>) -> bool {
    forall|i: int, j: int| 0 <= i < j < s.len() ==> s[i].address != s[j].address
}

/// There is a participant entry for `address`.
pub open spec fn has_user(s: Seq<User>, address: u64) -> bool {
    exists|i: int| 0 <= i < s.len() && s[i].address == address
}

/// The index of the participant entry for `address` (meaningful under
/// `unique_user_addresses`).
pub open spec fn user_index(s: Seq<User>, address: u64) -> int {
    choose|i: int| 0 <= i < s.len() && s[i].address == address
}

/// The position of `player` in a roster (meaningful when the roster has no
/// duplicates and contains the player).
pub open spec fn roster_index(players: Seq<u64>, player: u64) -> int {
    choose|i: int| 0 <= i < players.len() && players[i] == player
}

/// In a roster without duplicates, any index holding `x` is the index that
/// `roster_index` points at.
proof fn lemma_roster_at_index(s: Seq<u64>, i: int, x: u64)
    requires
        s.no_duplicates(),
        0 <= i < s.len(),
        s[i] == x,
    ensures
        s.contains(x),
        roster_index(s, x) == i,
{
    assert(s.contains(x));
    let k = roster_index(s, x);
    assert(0 <= k < s.len() && s[k] == x);
    if k != i {
        assert(s[k] != s[i]);
        assert(false);
    }
}

/// Under `unique_user_addresses`, the entry at any index with address `a` is
/// the entry that `user_index` points at.
proof fn lemma_user_at_index(s: Seq<User>, i: int, a: u64)
    requires
        unique_user_addresses(s),
        0 <= i < s.len(),
        s[i].address == a,
    ensures
        has_user(s, a),
        user_index(s, a) == i,
{
    assert(has_user(s, a));
    let k = user_index(s, a);
    assert(0 <= k < s.len() && s[k].address == a);
    if k != i {
        if k < i {
            assert(s[k].address != s[i].address);
        } else {
            assert(s[i].address != s[k].address);
        }
        assert(false);
    }
}

/// There is a catalog entry for collectible `id`.
pub open spec fn has_collectible(s: Seq<(u128, CollectibleInfo)>, id: u128) -> bool {
    exists|i: int| 0 <= i < s.len() && s[i].0 == id
}

/// The index of the catalog entry for collectible `id`.
pub open spec fn collectible_index(s: Seq<(u128, CollectibleInfo)>, id: u128) -> int {
    choose|i: int| 0 <= i < s.len() && s[i].0 == id
}

/// Collectible keys are unique.
pub open spec fn unique_collectible_keys(s: Seq<(u128, CollectibleInfo)>) -> bool {
    forall|i: int, j: int| 0 <= i < j < s.len() ==> s[i].0 != s[j].0
}

/// Under unique keys, any index holding key `id` is the index that
/// `collectible_index` points at.
proof fn lemma_collectible_at_index(s: Seq<(u128, CollectibleInfo)>, i: int, id: u128)
    requires
        unique_collectible_keys(s),
        0 <= i < s.len(),
        s[i].0 == id,
    ensures
        has_collectible(s, id),
        collectible_index(s, id) == i,
{
    assert(has_collectible(s, id));
    let k = collectible_index(s, id);
    assert(0 <= k < s.len() && s[k].0 == id);
    if k != i {
        if k < i {
            assert(s[k].0 != s[i].0);
        } else {
            assert(s[i].0 != s[k].0);
        }
        assert(false);
    }
}

/// There is a catalog entry for cash tier `tier`.
pub open spec fn has_tier(s: Seq<(u32, u128)>, tier: u32) -> bool {
    exists|i: int| 0 <= i < s.len() && s[i].0 == tier
}

/// The index of the catalog entry for cash tier `tier`.
pub open spec fn tier_index(s: Seq<(u32, u128)>, tier: u32) -> int {
    choose|i: int| 0 <= i < s.len() && s[i].0 == tier
}

/// Cash tier keys are unique.
pub open spec fn unique_tier_keys(s: Seq<(u32, u128)>) -> bool {
    forall|i: int, j: int| 0 <= i < j < s.len() ==> s[i].0 != s[j].0
}

/// Under unique keys, any index holding key `tier` is the index that
/// `tier_index` points at.
proof fn lemma_tier_at_index(s: Seq<(u32, u128)>, i: int, tier: u32)
    requires
        unique_tier_keys(s),
        0 <= i < s.len(),
        s[i].0 == tier,
    ensures
        has_tier(s, tier),
        tier_index(s, tier) == i,
{
    assert(has_tier(s, tier));
    let k = tier_index(s, tier);
    assert(0 <= k < s.len() && s[k].0 == tier);
    if k != i {
        if k < i {
            assert(s[k].0 != s[i].0);
        } else {
            assert(s[i].0 != s[k].0);
        }
        assert(false);
    }
}

/// The whole engine state: the registry of participants, every lobby record,
/// the owner-managed catalogs, the token balances and the event log.
///
/// The engine is single-writer: each operation runs to completion, checks
/// every precondition before any mutation, and either fully commits or leaves
/// the state exactly as it was.
pub struct TycoonContract {
    /// The engine's own address: the account that holds pooled stakes.
    pub address: u64,
    /// The owner, once `initialize` has run.
    pub owner: Option<u64>,
    /// Registered participants; one entry per address.
    pub users: Vec<User>,
    /// Every lobby ever created; the lobby with identifier `i + 1` is at
    /// index `i`, so identifiers increase monotonically and are never reused.
    pub games: Vec<Game>,
    /// Collectible catalog, keyed by token identifier.
    pub collectibles: Vec<(u128, CollectibleInfo)>,
    /// Cash tier catalog, keyed by tier.
    pub cash_tiers: Vec<(u32, u128)>,
    /// Token balances, including the pool held at `address`.
    pub ledger: TokenLedger,
    /// Everything notable that happened, in order.
    pub event_log: Vec<GameEvent>,
}

impl TycoonContract {
    /// All standing invariants of the engine state.
    pub open spec fn wf(self) -> bool {
        &&& self.ledger.wf()
        &&& unique_user_addresses(self.users@)
        &&& forall|i: int|
            0 <= i < self.games@.len() ==> (#[trigger] self.games@[i]).id == i + 1
                && self.games@[i].wf()
        &&& unique_collectible_keys(self.collectibles@)
        &&& unique_tier_keys(self.cash_tiers@)
    }

    /// The catalog entry for collectible `token_id`, if one was stored.
    pub open spec fn spec_collectible(self, token_id: u128) -> Option<CollectibleInfo> {
        if has_collectible(self.collectibles@, token_id) {
            Some(self.collectibles@[collectible_index(self.collectibles@, token_id)].1)
        } else {
            None
        }
    }

    /// The catalog value for cash tier `tier`, if one was stored.
    pub open spec fn spec_cash_tier(self, tier: u32) -> Option<u128> {
        if has_tier(self.cash_tiers@, tier) {
            Some(self.cash_tiers@[tier_index(self.cash_tiers@, tier)].1)
        } else {
            None
        }
    }

    /// `address` has completed registration.
    pub open spec fn spec_registered(self, address: u64) -> bool {
        has_user(self.users@, address)
    }

    /// The stored participant record for `address`, if registered.
    pub open spec fn spec_user(self, address: u64) -> Option<User> {
        if self.spec_registered(address) {
            Some(self.users@[user_index(self.users@, address)])
        } else {
            None
        }
    }

    /// The lobby with identifier `game_id`, if one was ever created.
    /// Identifiers are assigned 1, 2, 3, ... in creation order.
    pub open spec fn spec_game(self, game_id: u64) -> Option<Game> {
        if 1 <= game_id <= self.games@.len() {
            Some(self.games@[game_id - 1])
        } else {
            None
        }
    }

    /// The pooled balance held by the contract's own address.
    pub open spec fn pool(self) -> u128 {
        self.ledger.spec_balance(self.address)
    }

    /// A fresh engine deployed at `address`: nothing registered, no lobby,
    /// empty catalogs, empty ledger, empty log.
    pub fn new(address: u64) -> (r: TycoonContract)
        ensures
            r.wf(),
            r.address == address,
            r.owner is None,
            r.users@.len() == 0,
            r.games@.len() == 0,
            r.collectibles@.len() == 0,
            r.cash_tiers@.len() == 0,
            r.event_log@.len() == 0,
            forall|a: u64| r.ledger.spec_balance(a) == 0,
    {
        TycoonContract {
            address,
            owner: None,
            users: Vec::new(),
            games: Vec::new(),
            collectibles: Vec::new(),
            cash_tiers: Vec::new(),
            ledger: TokenLedger::new(),
            event_log: Vec::new(),
        }
    }

    /// The index of the participant entry for `address`, if one exists.
    fn find_user(&self, address: u64) -> (r: Option<usize>)
        ensures
            match r {
                Some(i) => i < self.users@.len() && self.users@[i as int].address == address,
                None => !has_user(self.users@, address),
            },
    {
        let n: usize = self.users.len();
        let mut i: usize = 0;
        while i < n
            invariant
                n == self.users@.len(),
                i <= n,
                forall|j: int| 0 <= j < i ==> self.users@[j].address != address,
            decreases n - i,
        {
            if self.users[i].address == address {
                return Some(i);
            }
            i += 1;
        }
        None
    }

    /// The first index of `x` in the roster `v`, if `x` is present.
    fn roster_find(v: &Vec<u64>, x: u64) -> (r: Option<usize>)
        ensures
            match r {
                Some(i) => i < v@.len() && v@[i as int] == x,
                None => !v@.contains(x),
            },
    {
        let n: usize = v.len();
        let mut i: usize = 0;
        while i < n
            invariant
                n == v@.len(),
                i <= n,
                forall|j: int| 0 <= j < i ==> v@[j] != x,
            decreases n - i,
        {
            if v[i] == x {
                return Some(i);
            }
            i += 1;
        }
        None
    }

    /// Whether the roster `v` contains `x`.
    fn roster_contains(v: &Vec<u64>, x: u64) -> (r: bool)
        ensures
            r == v@.contains(x),
    {
        Self::roster_find(v, x).is_some()
    }

    /// Whether the symbol set `v` contains `x`.
    fn symbols_contain(v: &Vec<u32>, x: u32) -> (r: bool)
        ensures
            r == v@.contains(x),
    {
        let n: usize = v.len();
        let mut i: usize = 0;
        while i < n
            invariant
                n == v@.len(),
                i <= n,
                forall|j: int| 0 <= j < i ==> v@[j] != x,
            decreases n - i,
        {
            if v[i] == x {
                return true;
            }
            i += 1;
        }
        false
    }

    /// Whether `address` has completed registration.
    pub fn is_registered(&self, address: u64) -> (r: bool)
        requires
            self.wf(),
        ensures
            r == self.spec_registered(address),
    {
        match self.find_user(address) {
            Some(_) => true,
            None => false,
        }
    }

    /// Register `caller` under `username`. `seq` and `now` are the host
    /// ledger's sequence number and timestamp, recorded in the new entry.
    /// Fails when the address is already registered, or when the username is
    /// not 3 to 20 bytes long; on failure nothing changes.
    pub fn register_player(&mut self, username: Vec<u8>, caller: u64, seq: u64, now: u64) -> (r:
        Result<(), Error>)
        requires
            old(self).wf(),
        ensures
            final(self).wf(),
            r is Err ==> *final(self) == *old(self),
            old(self).spec_registered(caller) ==> r == Err::<(), Error>(Error::AlreadyRegistered),
            !old(self).spec_registered(caller) && !(3 <= username@.len() <= 20) ==> r == Err::<
                (),
                Error,
            >(Error::InvalidUsername),
            r is Ok <==> !old(self).spec_registered(caller) && 3 <= username@.len() <= 20,
            r is Ok ==> ({
                &&& final(self).users@.len() == old(self).users@.len() + 1
                &&& forall|j: int|
                    0 <= j < old(self).users@.len() ==> final(self).users@[j] == old(self).users@[j]
                &&& final(self).users@.last().address == caller
                &&& final(self).users@.last().username@ == username@
                &&& final(self).users@.last().id == seq
                &&& final(self).users@.last().registered_at == now
                &&& final(self).users@.last().games_played == 0
                &&& final(self).users@.last().games_won == 0
                &&& final(self).games == old(self).games
                &&& final(self).ledger == old(self).ledger
                &&& final(self).event_log == old(self).event_log
                &&& final(self).collectibles == old(self).collectibles
                &&& final(self).cash_tiers == old(self).cash_tiers
                &&& final(self).owner == old(self).owner
                &&& final(self).address == old(self).address
            }),
            forall|x: u64|
                #[trigger] final(self).spec_registered(x) <==> (old(self).spec_registered(x) || (
                r is Ok && x == caller)),
            r is Ok ==> ({
                let u = final(self).spec_user(caller)->Some_0;
                &&& final(self).spec_user(caller) is Some
                &&& u.address == caller
                &&& u.username@ == username@
                &&& u.id == seq
                &&& u.registered_at == now
                &&& u.games_played == 0
                &&& u.games_won == 0
            }),
            forall|x: u64|
                x != caller ==> #[trigger] final(self).spec_user(x) == old(self).spec_user(x),
    {
        if self.find_user(caller).is_some() {
            return Err(Error::AlreadyRegistered);
        }
        let len: usize = username.len();
        if len < 3 || len > 20 {
            return Err(Error::InvalidUsername);
        }
        let ghost pre = self.users@;
        self.users.push(
            User {
                id: seq,
                username,
                address: caller,
                registered_at: now,
                games_played: 0,
                games_won: 0,
            },
        );
        proof {
            assert(forall|j: int| 0 <= j < pre.len() ==> self.users@[j] == pre[j]);
            assert(unique_user_addresses(self.users@)) by {
                assert(forall|j: int| 0 <= j < pre.len() ==> pre[j].address != caller);
            }
            assert forall|x: u64| #[trigger] self.spec_registered(x) <==> (has_user(pre, x) || x
                == caller) by {
                if has_user(pre, x) {
                    let k = choose|k: int| 0 <= k < pre.len() && pre[k].address == x;
                    assert(self.users@[k].address == x);
                }
                if x == caller {
                    assert(self.users@[pre.len() as int].address == x);
                }
                if self.spec_registered(x) && x != caller {
                    let k = choose|k: int|
                        0 <= k < self.users@.len() && self.users@[k].address == x;
                    assert(k != pre.len() as int);
                    assert(pre[k].address == x);
                }
            }
            lemma_user_at_index(self.users@, pre.len() as int, caller);
            assert forall|x: u64| x != caller implies #[trigger] self.spec_user(x) == (if has_user(
                pre,
                x,
            ) {
                Some(pre[user_index(pre, x)])
            } else {
                None
            }) by {
                if has_user(pre, x) {
                    let k = user_index(pre, x);
                    assert(pre[k].address == x);
                    assert(self.users@[k].address == x);
                    lemma_user_at_index(self.users@, k, x);
                }
            }
        }
        Ok(())
    }

    /// The identity claim holds: `address` is registered and its stored
    /// username equals `username` byte for byte.
    pub open spec fn username_matches(self, address: u64, username: Seq<u8>) -> bool {
        &&& self.spec_registered(address)
        &&& self.spec_user(address)->Some_0.username@ == username
    }

    /// What `create_game` decides, in precedence order. A lobby is created
    /// only by a registered creator under its registered username, a private
    /// lobby needs a non-empty code, the target player count must lie in
    /// 2 ..= 8, and a positive stake must be transferable from the creator to
    /// the pool. The identifier-space check is a machine limit: identifiers
    /// are never reused, so they run out after `u64::MAX` creations.
    pub open spec fn create_outcome(
        self,
        creator: u64,
        creator_username: Seq<u8>,
        game_type: GameType,
        number_of_players: u32,
        code: Seq<u8>,
        stake_amount: u128,
    ) -> Result<u64, Error> {
        if !self.spec_registered(creator) {
            Err(Error::NotRegistered)
        } else if !self.username_matches(creator, creator_username) {
            Err(Error::AccessDenied)
        } else if game_type is Private && code.len() == 0 {
            Err(Error::InvalidConfiguration)
        } else if number_of_players < 2 || number_of_players > 8 {
            Err(Error::InvalidConfiguration)
        } else if self.games@.len() == u64::MAX {
            Err(Error::CapacityExceeded)
        } else if stake_amount > 0 && !self.ledger.can_transfer(
            creator,
            self.address,
            stake_amount,
        ) {
            Err(Error::TransferFailed)
        } else {
            Ok((self.games@.len() + 1) as u64)
        }
    }

    /// Create a new lobby. The creator is admitted as roster index 0 with
    /// their chosen symbol; a positive `stake_amount` is escrowed from the
    /// creator into the pool before the record exists, atomically with it.
    /// Returns the new lobby's identifier; on failure nothing changes.
    pub fn create_game(
        &mut self,
        creator: u64,
        creator_username: &Vec<u8>,
        game_type: GameType,
        player_symbol: u32,
        number_of_players: u32,
        code: Vec<u8>,
        starting_balance: u128,
        stake_amount: u128,
        now: u64,
    ) -> (r: Result<u64, Error>)
        requires
            old(self).wf(),
        ensures
            final(self).wf(),
            r == old(self).create_outcome(
                creator,
                creator_username@,
                game_type,
                number_of_players,
                code@,
                stake_amount,
            ),
            r is Err ==> *final(self) == *old(self),
            r is Ok ==> ({
                let id = r->Ok_0;
                let g = final(self).games@.last();
                &&& id == old(self).games@.len() + 1
                &&& final(self).games@.len() == old(self).games@.len() + 1
                &&& forall|j: int|
                    0 <= j < old(self).games@.len() ==> final(self).games@[j] == old(self).games@[j]
                &&& g.id == id
                &&& g.creator == creator
                &&& g.status is Waiting
                &&& g.created_at == now
                &&& g.settings.game_type == game_type
                &&& g.settings.number_of_players == number_of_players
                &&& g.settings.starting_balance == starting_balance
                &&& g.settings.stake_amount == stake_amount
                &&& g.settings.code@ == code@
                &&& g.settings.player_symbol == player_symbol
                &&& g.players@ == seq![creator]
                &&& g.symbols@ == seq![player_symbol]
                &&& final(self).users == old(self).users
                &&& final(self).collectibles == old(self).collectibles
                &&& final(self).cash_tiers == old(self).cash_tiers
                &&& final(self).owner == old(self).owner
                &&& final(self).address == old(self).address
                &&& (stake_amount == 0 ==> final(self).ledger == old(self).ledger)
                &&& (stake_amount > 0 ==> forall|x: u64|
                    #[trigger] final(self).ledger.spec_balance(x) == (if creator == old(self).address {
                        old(self).ledger.spec_balance(x)
                    } else if x == creator {
                        (old(self).ledger.spec_balance(creator) - stake_amount) as u128
                    } else if x == old(self).address {
                        (old(self).ledger.spec_balance(old(self).address) + stake_amount) as u128
                    } else {
                        old(self).ledger.spec_balance(x)
                    }))
                &&& (stake_amount > 0 && creator != old(self).address ==> final(self).pool() == old(self).pool() + stake_amount)
                &&& final(self).event_log@.len() == old(self).event_log@.len() + 1
                &&& forall|j: int|
                    0 <= j < old(self).event_log@.len() ==> final(self).event_log@[j] == old(self).event_log@[j]
                &&& ({
                    let e = final(self).event_log@.last();
                    &&& e is GameCreated
                    &&& e->GameCreated_0.game_id == id
                    &&& e->GameCreated_0.creator == creator
                    &&& e->GameCreated_0.game_type == game_type
                    &&& e->GameCreated_0.number_of_players == number_of_players
                    &&& e->GameCreated_0.starting_balance == starting_balance
                    &&& e->GameCreated_0.stake_amount == stake_amount
                    &&& e->GameCreated_0.code@ == code@
                    &&& e->GameCreated_0.player_symbol == player_symbol
                })
            }),
    {
        let uidx = match self.find_user(creator) {
            Some(i) => i,
            None => {
                return Err(Error::NotRegistered);
            },
        };
        proof {
            lemma_user_at_index(self.users@, uidx as int, creator);
        }
        if !(self.users[uidx].username == *creator_username) {
            proof {
                assert(self.users@[uidx as int].username@ != creator_username@) by {
                    if self.users@[uidx as int].username@ == creator_username@ {
                        assert(self.users@[uidx as int].username@ =~= creator_username@);
                    }
                }
            }
            return Err(Error::AccessDenied);
        }
        proof {
            assert(self.users@[uidx as int].username@ =~= creator_username@);
        }
        if game_type == GameType::Private && code.len() == 0 {
            return Err(Error::InvalidConfiguration);
        }
        if number_of_players < 2 || number_of_players > 8 {
            return Err(Error::InvalidConfiguration);
        }
        let n_games: usize = self.games.len();
        if n_games as u64 == u64::MAX {
            return Err(Error::CapacityExceeded);
        }
        if stake_amount > 0 {
            let to = self.address;
            match self.ledger.transfer(creator, to, stake_amount) {
                Ok(()) => {},
                Err(_) => {
                    return Err(Error::TransferFailed);
                },
            }
        }
        let game_id: u64 = n_games as u64 + 1;
        let mut players: Vec<u64> = Vec::new();
        players.push(creator);
        let mut symbols: Vec<u32> = Vec::new();
        symbols.push(player_symbol);
        let event_code = code.clone();
        proof {
            assert(event_code@ =~= code@);
            assert(players@ =~= seq![creator]);
            assert(symbols@ =~= seq![player_symbol]);
        }
        let settings = GameSettings {
            game_type,
            number_of_players,
            starting_balance,
            stake_amount,
            code,
            player_symbol,
        };
        let game = Game {
            id: game_id,
            creator,
            settings,
            status: GameStatus::Waiting,
            created_at: now,
            players,
            symbols,
        };
        self.games.push(game);
        self.event_log.push(
            GameEvent::GameCreated(
                GameCreatedData {
                    game_id,
                    creator,
                    game_type,
                    number_of_players,
                    starting_balance,
                    stake_amount,
                    code: event_code,
                    player_symbol,
                },
            ),
        );
        proof {
            assert(self.games@.last().wf());
            assert(forall|i: int|
                0 <= i < self.games@.len() ==> (#[trigger] self.games@[i]).id == i + 1
                    && self.games@[i].wf());
        }
        Ok(game_id)
    }

    /// What `join_game` decides, in precedence order. A lobby admits a
    /// registered player acting under their registered username while it is
    /// still waiting; a private lobby requires the stored code byte for byte
    /// before anything else about the roster is considered; the roster must be
    /// below the configured target, the player must not already be a member,
    /// the proposed symbol must be free, and a positive stake must be
    /// transferable from the player to the pool.
    pub open spec fn join_outcome(
        self,
        game_id: u64,
        player: u64,
        player_username: Seq<u8>,
        player_symbol: u32,
        join_code: Seq<u8>,
    ) -> Result<(), Error> {
        if !self.spec_registered(player) {
            Err(Error::NotRegistered)
        } else if !self.username_matches(player, player_username) {
            Err(Error::AccessDenied)
        } else if self.spec_game(game_id) is None {
            Err(Error::NotFound)
        } else {
            let g = self.spec_game(game_id)->Some_0;
            if !(g.status is Waiting) {
                Err(Error::InvalidState)
            } else if g.settings.game_type is Private && g.settings.code@ != join_code {
                Err(Error::AccessDenied)
            } else if g.players@.len() >= g.settings.number_of_players {
                Err(Error::CapacityExceeded)
            } else if g.players@.contains(player) {
                Err(Error::AlreadyJoined)
            } else if g.symbols@.contains(player_symbol) {
                Err(Error::DuplicateSymbol)
            } else if g.settings.stake_amount > 0 && !self.ledger.can_transfer(
                player,
                self.address,
                g.settings.stake_amount,
            ) {
                Err(Error::TransferFailed)
            } else {
                Ok(())
            }
        }
    }

    /// Admit `player` to the waiting lobby `game_id`. The stake configured at
    /// creation, if positive, is escrowed from the player into the pool before
    /// the roster changes, atomically with it: a failed transfer leaves the
    /// player off the roster and everything else unchanged.
    pub fn join_game(
        &mut self,
        game_id: u64,
        player: u64,
        player_username: &Vec<u8>,
        player_symbol: u32,
        join_code: &Vec<u8>,
    ) -> (r: Result<(), Error>)
        requires
            old(self).wf(),
        ensures
            final(self).wf(),
            r == old(self).join_outcome(
                game_id,
                player,
                player_username@,
                player_symbol,
                join_code@,
            ),
            r is Err ==> *final(self) == *old(self),
            r is Ok ==> ({
                let g = old(self).spec_game(game_id)->Some_0;
                let g2 = final(self).spec_game(game_id)->Some_0;
                let stake = g.settings.stake_amount;
                &&& final(self).games@.len() == old(self).games@.len()
                &&& forall|j: int|
                    0 <= j < old(self).games@.len() && j != game_id - 1 ==> final(self).games@[j] == old(self).games@[j]
                &&& g2.players@ == g.players@.push(player)
                &&& g2.symbols@ == g.symbols@.push(player_symbol)
                &&& g2.id == g.id
                &&& g2.creator == g.creator
                &&& g2.status == g.status
                &&& g2.created_at == g.created_at
                &&& g2.settings == g.settings
                &&& final(self).users == old(self).users
                &&& final(self).collectibles == old(self).collectibles
                &&& final(self).cash_tiers == old(self).cash_tiers
                &&& final(self).owner == old(self).owner
                &&& final(self).address == old(self).address
                &&& (stake == 0 ==> final(self).ledger == old(self).ledger)
                &&& (stake > 0 ==> forall|x: u64|
                    #[trigger] final(self).ledger.spec_balance(x) == (if player == old(self).address {
                        old(self).ledger.spec_balance(x)
                    } else if x == player {
                        (old(self).ledger.spec_balance(player) - stake) as u128
                    } else if x == old(self).address {
                        (old(self).ledger.spec_balance(old(self).address) + stake) as u128
                    } else {
                        old(self).ledger.spec_balance(x)
                    }))
                &&& (stake > 0 && player != old(self).address ==> final(self).pool() == old(self).pool() + stake)
                &&& final(self).event_log@.len() == old(self).event_log@.len() + 1
                &&& forall|j: int|
                    0 <= j < old(self).event_log@.len() ==> final(self).event_log@[j] == old(self).event_log@[j]
                &&& ({
                    let e = final(self).event_log@.last();
                    &&& e is PlayerJoined
                    &&& e->PlayerJoined_0.game_id == game_id
                    &&& e->PlayerJoined_0.player == player
                    &&& e->PlayerJoined_0.player_symbol == player_symbol
                    &&& e->PlayerJoined_0.joined_count == g.players@.len() + 1
                })
            }),
    {
        let uidx = match self.find_user(player) {
            Some(i) => i,
            None => {
                return Err(Error::NotRegistered);
            },
        };
        proof {
            lemma_user_at_index(self.users@, uidx as int, player);
        }
        if !(self.users[uidx].username == *player_username) {
            proof {
                assert(self.users@[uidx as int].username@ != player_username@) by {
                    if self.users@[uidx as int].username@ == player_username@ {
                        assert(self.users@[uidx as int].username@ =~= player_username@);
                    }
                }
            }
            return Err(Error::AccessDenied);
        }
        proof {
            assert(self.users@[uidx as int].username@ =~= player_username@);
        }
        if game_id == 0 || game_id > self.games.len() as u64 {
            return Err(Error::NotFound);
        }
        let gi: usize = (game_id - 1) as usize;
        if !(self.games[gi].status == GameStatus::Waiting) {
            return Err(Error::InvalidState);
        }
        if self.games[gi].settings.game_type == GameType::Private {
            if !(self.games[gi].settings.code == *join_code) {
                proof {
                    assert(self.games@[gi as int].settings.code@ != join_code@) by {
                        if self.games@[gi as int].settings.code@ == join_code@ {
                            assert(self.games@[gi as int].settings.code@ =~= join_code@);
                        }
                    }
                }
                return Err(Error::AccessDenied);
            }
            proof {
                assert(self.games@[gi as int].settings.code@ =~= join_code@);
            }
        }
        let n_players: usize = self.games[gi].players.len();
        if n_players >= self.games[gi].settings.number_of_players as usize {
            return Err(Error::CapacityExceeded);
        }
        if Self::roster_contains(&self.games[gi].players, player) {
            return Err(Error::AlreadyJoined);
        }
        if Self::symbols_contain(&self.games[gi].symbols, player_symbol) {
            return Err(Error::DuplicateSymbol);
        }
        let stake: u128 = self.games[gi].settings.stake_amount;
        if stake > 0 {
            let to = self.address;
            match self.ledger.transfer(player, to, stake) {
                Ok(()) => {},
                Err(_) => {
                    return Err(Error::TransferFailed);
                },
            }
        }
        let ghost g0 = self.games@[gi as int];
        self.games[gi].players.push(player);
        self.games[gi].symbols.push(player_symbol);
        let joined_count: u32 = (n_players + 1) as u32;
        self.event_log.push(
            GameEvent::PlayerJoined(
                crate::events::PlayerJoinedData { game_id, player, player_symbol, joined_count },
            ),
        );
        proof {
            let g2 = self.games@[gi as int];
            assert(g2.players@ == g0.players@.push(player));
            assert(g2.symbols@ == g0.symbols@.push(player_symbol));
            assert(g2.players@.no_duplicates()) by {
                assert(forall|k: int| 0 <= k < g0.players@.len() ==> g0.players@[k] != player);
            }
            assert(g2.symbols@.no_duplicates()) by {
                assert(forall|k: int|
                    0 <= k < g0.symbols@.len() ==> g0.symbols@[k] != player_symbol);
            }
            assert(g2.wf());
            assert(forall|i: int|
                0 <= i < self.games@.len() ==> (#[trigger] self.games@[i]).id == i + 1
                    && self.games@[i].wf());
        }
        Ok(())
    }

    /// What `start_game` decides, in precedence order. Only the creator
    /// starts a lobby, only while it is waiting, and only with at least two
    /// players assembled.
    pub open spec fn start_outcome(self, game_id: u64, caller: u64) -> Result<(), Error> {
        if self.spec_game(game_id) is None {
            Err(Error::NotFound)
        } else {
            let g = self.spec_game(game_id)->Some_0;
            if caller != g.creator {
                Err(Error::AccessDenied)
            } else if !(g.status is Waiting) {
                Err(Error::InvalidState)
            } else if g.players@.len() < 2 {
                Err(Error::InvalidState)
            } else {
                Ok(())
            }
        }
    }

    /// Transition the lobby `game_id` from `Waiting` to `InProgress`. The
    /// roster is kept exactly as assembled; no balance moves. On failure
    /// nothing changes.
    pub fn start_game(&mut self, game_id: u64, caller: u64) -> (r: Result<(), Error>)
        requires
            old(self).wf(),
        ensures
            final(self).wf(),
            r == old(self).start_outcome(game_id, caller),
            r is Err ==> *final(self) == *old(self),
            r is Ok ==> ({
                let g = old(self).spec_game(game_id)->Some_0;
                let g2 = final(self).spec_game(game_id)->Some_0;
                &&& final(self).games@.len() == old(self).games@.len()
                &&& forall|j: int|
                    0 <= j < old(self).games@.len() && j != game_id - 1 ==> final(self).games@[j]
                        == old(self).games@[j]
                &&& g2.status is InProgress
                &&& g2.players@ == g.players@
                &&& g2.symbols@ == g.symbols@
                &&& g2.id == g.id
                &&& g2.creator == g.creator
                &&& g2.created_at == g.created_at
                &&& g2.settings == g.settings
                &&& final(self).users == old(self).users
                &&& final(self).collectibles == old(self).collectibles
                &&& final(self).cash_tiers == old(self).cash_tiers
                &&& final(self).owner == old(self).owner
                &&& final(self).address == old(self).address
                &&& final(self).ledger == old(self).ledger
                &&& final(self).event_log@.len() == old(self).event_log@.len() + 1
                &&& forall|j: int|
                    0 <= j < old(self).event_log@.len() ==> final(self).event_log@[j] == old(
                        self,
                    ).event_log@[j]
                &&& ({
                    let e = final(self).event_log@.last();
                    &&& e is GameStarted
                    &&& e->GameStarted_0.game_id == game_id
                    &&& e->GameStarted_0.player_count == g.players@.len()
                })
            }),
    {
        if game_id == 0 || game_id > self.games.len() as u64 {
            return Err(Error::NotFound);
        }
        let gi: usize = (game_id - 1) as usize;
        if caller != self.games[gi].creator {
            return Err(Error::AccessDenied);
        }
        if !(self.games[gi].status == GameStatus::Waiting) {
            return Err(Error::InvalidState);
        }
        let player_count: usize = self.games[gi].players.len();
        if player_count < 2 {
            return Err(Error::InvalidState);
        }
        self.games[gi].status = GameStatus::InProgress;
        self.event_log.push(
            GameEvent::GameStarted(
                crate::events::GameStartedData { game_id, player_count: player_count as u32 },
            ),
        );
        proof {
            assert(self.games@[gi as int].wf());
            assert(forall|i: int|
                0 <= i < self.games@.len() ==> (#[trigger] self.games@[i]).id == i + 1
                    && self.games@[i].wf());
        }
        Ok(())
    }

    /// What `exit_game` decides, in precedence order. A player leaves
    /// voluntarily only while the lobby is in progress, and only if they are
    /// currently on the roster.
    pub open spec fn exit_outcome(self, game_id: u64, player: u64) -> Result<(), Error> {
        if self.spec_game(game_id) is None {
            Err(Error::NotFound)
        } else {
            let g = self.spec_game(game_id)->Some_0;
            if !(g.status is InProgress) {
                Err(Error::InvalidState)
            } else if !g.players@.contains(player) {
                Err(Error::AccessDenied)
            } else {
                Ok(())
            }
        }
    }

    /// Voluntary exit from the in-progress lobby `game_id`: the player is
    /// removed from the roster, the order of the remaining entries is kept.
    ///
    /// The exiting player's stake stays in the pool and their symbol stays
    /// taken: settlement of escrowed stakes on exit is an unresolved design
    /// gap, deliberately left open until a payout rule distinguishing
    /// voluntary exits from bankruptcies exists. On failure nothing changes.
    pub fn exit_game(&mut self, game_id: u64, player: u64) -> (r: Result<(), Error>)
        requires
            old(self).wf(),
        ensures
            final(self).wf(),
            r == old(self).exit_outcome(game_id, player),
            r is Err ==> *final(self) == *old(self),
            r is Ok ==> ({
                let g = old(self).spec_game(game_id)->Some_0;
                let g2 = final(self).spec_game(game_id)->Some_0;
                &&& final(self).games@.len() == old(self).games@.len()
                &&& forall|j: int|
                    0 <= j < old(self).games@.len() && j != game_id - 1 ==> final(self).games@[j]
                        == old(self).games@[j]
                &&& g2.players@ == g.players@.remove(roster_index(g.players@, player))
                &&& g2.players@.len() == g.players@.len() - 1
                &&& !g2.players@.contains(player)
                &&& g2.symbols@ == g.symbols@
                &&& g2.status == g.status
                &&& g2.id == g.id
                &&& g2.creator == g.creator
                &&& g2.created_at == g.created_at
                &&& g2.settings == g.settings
                &&& final(self).users == old(self).users
                &&& final(self).collectibles == old(self).collectibles
                &&& final(self).cash_tiers == old(self).cash_tiers
                &&& final(self).owner == old(self).owner
                &&& final(self).address == old(self).address
                &&& final(self).ledger == old(self).ledger
                &&& final(self).event_log@.len() == old(self).event_log@.len() + 1
                &&& forall|j: int|
                    0 <= j < old(self).event_log@.len() ==> final(self).event_log@[j] == old(
                        self,
                    ).event_log@[j]
                &&& ({
                    let e = final(self).event_log@.last();
                    &&& e is PlayerExited
                    &&& e->PlayerExited_0.game_id == game_id
                    &&& e->PlayerExited_0.player == player
                })
            }),
    {
        if game_id == 0 || game_id > self.games.len() as u64 {
            return Err(Error::NotFound);
        }
        let gi: usize = (game_id - 1) as usize;
        if !(self.games[gi].status == GameStatus::InProgress) {
            return Err(Error::InvalidState);
        }
        let k = match Self::roster_find(&self.games[gi].players, player) {
            Some(k) => k,
            None => {
                return Err(Error::AccessDenied);
            },
        };
        let ghost g0 = self.games@[gi as int];
        proof {
            lemma_roster_at_index(g0.players@, k as int, player);
        }
        let _removed = self.games[gi].players.remove(k);
        self.event_log.push(
            GameEvent::PlayerExited(crate::events::PlayerExitedData { game_id, player }),
        );
        proof {
            let g2 = self.games@[gi as int];
            assert(g2.players@ == g0.players@.remove(k as int));
            assert(forall|m: int| 0 <= m < k ==> g2.players@[m] == g0.players@[m]);
            assert(forall|m: int|
                k <= m < g2.players@.len() ==> g2.players@[m] == g0.players@[m + 1]);
            assert(forall|m: int|
                0 <= m < g0.players@.len() && m != k ==> g0.players@[m] != player);
            assert(g2.players@.no_duplicates());
            assert(!g2.players@.contains(player)) by {
                if g2.players@.contains(player) {
                    let m = choose|m: int| 0 <= m < g2.players@.len() && g2.players@[m] == player;
                    if m < k {
                        assert(g0.players@[m] == player);
                    } else {
                        assert(g0.players@[m + 1] == player);
                    }
                }
            }
            assert(g2.wf());
            assert(forall|i: int|
                0 <= i < self.games@.len() ==> (#[trigger] self.games@[i]).id == i + 1
                    && self.games@[i].wf());
        }
        Ok(())
    }

    /// Record `initial_owner` as the owner. Must run exactly once; a second
    /// call fails and changes nothing.
    pub fn initialize(&mut self, initial_owner: u64) -> (r: Result<(), Error>)
        requires
            old(self).wf(),
        ensures
            final(self).wf(),
            r is Err ==> *final(self) == *old(self),
            old(self).owner is Some ==> r == Err::<(), Error>(Error::InvalidState),
            r is Ok <==> old(self).owner is None,
            r is Ok ==> ({
                &&& final(self).owner == Some(initial_owner)
                &&& final(self).users == old(self).users
                &&& final(self).games == old(self).games
                &&& final(self).collectibles == old(self).collectibles
                &&& final(self).cash_tiers == old(self).cash_tiers
                &&& final(self).ledger == old(self).ledger
                &&& final(self).event_log == old(self).event_log
                &&& final(self).address == old(self).address
            }),
    {
        match self.owner {
            Some(_) => Err(Error::InvalidState),
            None => {
                self.owner = Some(initial_owner);
                Ok(())
            },
        }
    }

    /// Whether `initialize` has run.
    pub fn is_initialized(&self) -> (r: bool)
        ensures
            r == (self.owner is Some),
    {
        self.owner.is_some()
    }

    /// The owner recorded by `initialize`, if any.
    pub fn get_owner(&self) -> (r: Option<u64>)
        ensures
            r == self.owner,
    {
        self.owner
    }
    /// The index of the catalog entry for collectible `token_id`, if any.
    fn find_collectible(&self, token_id: u128) -> (r: Option<usize>)
        ensures
            match r {
                Some(i) => i < self.collectibles@.len() && self.collectibles@[i as int].0
                    == token_id,
                None => !has_collectible(self.collectibles@, token_id),
            },
    {
        let n: usize = self.collectibles.len();
        let mut i: usize = 0;
        while i < n
            invariant
                n == self.collectibles@.len(),
                i <= n,
                forall|j: int| 0 <= j < i ==> self.collectibles@[j].0 != token_id,
            decreases n - i,
        {
            if self.collectibles[i].0 == token_id {
                return Some(i);
            }
            i += 1;
        }
        None
    }

    /// The index of the catalog entry for cash tier `tier`, if any.
    fn find_tier(&self, tier: u32) -> (r: Option<usize>)
        ensures
            match r {
                Some(i) => i < self.cash_tiers@.len() && self.cash_tiers@[i as int].0 == tier,
                None => !has_tier(self.cash_tiers@, tier),
            },
    {
        let n: usize = self.cash_tiers.len();
        let mut i: usize = 0;
        while i < n
            invariant
                n == self.cash_tiers@.len(),
                i <= n,
                forall|j: int| 0 <= j < i ==> self.cash_tiers@[j].0 != tier,
            decreases n - i,
        {
            if self.cash_tiers[i].0 == tier {
                return Some(i);
            }
            i += 1;
        }
        None
    }

    /// Store catalog data for collectible `token_id`, overwriting any previous
    /// entry. Only the owner may do this.
    pub fn set_collectible_info(
        &mut self,
        caller: u64,
        token_id: u128,
        perk: u32,
        strength: u32,
        tyc_price: u128,
        usdc_price: u128,
        shop_stock: u64,
    ) -> (r: Result<(), Error>)
        requires
            old(self).wf(),
        ensures
            final(self).wf(),
            r is Err ==> *final(self) == *old(self),
            r is Ok <==> old(self).owner == Some(caller),
            r is Err ==> r == Err::<(), Error>(Error::AccessDenied),
            r is Ok ==> ({
                &&& forall|t: u128|
                    #[trigger] final(self).spec_collectible(t) == if t == token_id {
                        Some(
                            CollectibleInfo { perk, strength, tyc_price, usdc_price, shop_stock },
                        )
                    } else {
                        old(self).spec_collectible(t)
                    }
                &&& final(self).users == old(self).users
                &&& final(self).games == old(self).games
                &&& final(self).cash_tiers == old(self).cash_tiers
                &&& final(self).ledger == old(self).ledger
                &&& final(self).event_log == old(self).event_log
                &&& final(self).owner == old(self).owner
                &&& final(self).address == old(self).address
            }),
    {
        match self.owner {
            Some(o) => {
                if o != caller {
                    return Err(Error::AccessDenied);
                }
            },
            None => {
                return Err(Error::AccessDenied);
            },
        }
        let info = CollectibleInfo { perk, strength, tyc_price, usdc_price, shop_stock };
        let ghost pre = self.collectibles@;
        match self.find_collectible(token_id) {
            Some(i) => {
                self.collectibles[i] = (token_id, info);
                proof {
                    assert(forall|j: int|
                        0 <= j < pre.len() ==> self.collectibles@[j].0 == pre[j].0);
                    assert(unique_collectible_keys(self.collectibles@));
                    assert forall|t: u128| #[trigger] self.spec_collectible(t) == if t
                        == token_id {
                        Some(info)
                    } else {
                        if has_collectible(pre, t) {
                            Some(pre[collectible_index(pre, t)].1)
                        } else {
                            None
                        }
                    } by {
                        if t == token_id {
                            lemma_collectible_at_index(self.collectibles@, i as int, t);
                        } else {
                            if has_collectible(pre, t) {
                                let k = collectible_index(pre, t);
                                assert(pre[k].0 == t);
                                assert(self.collectibles@[k].0 == t);
                                lemma_collectible_at_index(self.collectibles@, k, t);
                                lemma_collectible_at_index(pre, k, t);
                            } else {
                                assert(!has_collectible(self.collectibles@, t)) by {
                                    if has_collectible(self.collectibles@, t) {
                                        let k = choose|k: int|
                                            0 <= k < self.collectibles@.len()
                                                && self.collectibles@[k].0 == t;
                                        assert(pre[k].0 == t);
                                    }
                                }
                            }
                        }
                    }
                }
                Ok(())
            },
            None => {
                self.collectibles.push((token_id, info));
                proof {
                    assert(forall|j: int|
                        0 <= j < pre.len() ==> self.collectibles@[j].0 == pre[j].0);
                    assert(forall|j: int| 0 <= j < pre.len() ==> pre[j].0 != token_id);
                    assert(self.collectibles@[pre.len() as int] == (token_id, info));
                    assert(unique_collectible_keys(self.collectibles@));
                    assert forall|t: u128| #[trigger] self.spec_collectible(t) == if t
                        == token_id {
                        Some(info)
                    } else {
                        if has_collectible(pre, t) {
                            Some(pre[collectible_index(pre, t)].1)
                        } else {
                            None
                        }
                    } by {
                        if t == token_id {
                            lemma_collectible_at_index(self.collectibles@, pre.len() as int, t);
                        } else {
                            if has_collectible(pre, t) {
                                let k = collectible_index(pre, t);
                                assert(pre[k].0 == t);
                                assert(self.collectibles@[k].0 == t);
                                lemma_collectible_at_index(self.collectibles@, k, t);
                                lemma_collectible_at_index(pre, k, t);
                            } else {
                                assert(!has_collectible(self.collectibles@, t)) by {
                                    if has_collectible(self.collectibles@, t) {
                                        let k = choose|k: int|
                                            0 <= k < self.collectibles@.len()
                                                && self.collectibles@[k].0 == t;
                                        assert(k != pre.len() as int);
                                        assert(pre[k].0 == t);
                                    }
                                }
                            }
                        }
                    }
                }
                Ok(())
            },
        }
    }

    /// The catalog data for collectible `token_id`, as the tuple
    /// (perk, strength, tyc price, usdc price, shop stock).
    pub fn get_collectible_info(&self, token_id: u128) -> (r: Result<
        (u32, u32, u128, u128, u64),
        Error,
    >)
        requires
            self.wf(),
        ensures
            match self.spec_collectible(token_id) {
                Some(info) => r == Ok::<(u32, u32, u128, u128, u64), Error>(
                    (info.perk, info.strength, info.tyc_price, info.usdc_price, info.shop_stock),
                ),
                None => r == Err::<(u32, u32, u128, u128, u64), Error>(Error::NotFound),
            },
    {
        match self.find_collectible(token_id) {
            Some(i) => {
                let info = self.collectibles[i].1;
                proof {
                    lemma_collectible_at_index(self.collectibles@, i as int, token_id);
                }
                Ok((info.perk, info.strength, info.tyc_price, info.usdc_price, info.shop_stock))
            },
            None => Err(Error::NotFound),
        }
    }

    /// Store the value of cash tier `tier`, overwriting any previous entry.
    /// Only the owner may do this.
    pub fn set_cash_tier_value(&mut self, caller: u64, tier: u32, value: u128) -> (r: Result<
        (),
        Error,
    >)
        requires
            old(self).wf(),
        ensures
            final(self).wf(),
            r is Err ==> *final(self) == *old(self),
            r is Ok <==> old(self).owner == Some(caller),
            r is Err ==> r == Err::<(), Error>(Error::AccessDenied),
            r is Ok ==> ({
                &&& forall|t: u32|
                    #[trigger] final(self).spec_cash_tier(t) == if t == tier {
                        Some(value)
                    } else {
                        old(self).spec_cash_tier(t)
                    }
                &&& final(self).users == old(self).users
                &&& final(self).games == old(self).games
                &&& final(self).collectibles == old(self).collectibles
                &&& final(self).ledger == old(self).ledger
                &&& final(self).event_log == old(self).event_log
                &&& final(self).owner == old(self).owner
                &&& final(self).address == old(self).address
            }),
    {
        match self.owner {
            Some(o) => {
                if o != caller {
                    return Err(Error::AccessDenied);
                }
            },
            None => {
                return Err(Error::AccessDenied);
            },
        }
        let ghost pre = self.cash_tiers@;
        match self.find_tier(tier) {
            Some(i) => {
                self.cash_tiers[i] = (tier, value);
                proof {
                    assert(forall|j: int| 0 <= j < pre.len() ==> self.cash_tiers@[j].0 == pre[j].0);
                    assert(unique_tier_keys(self.cash_tiers@));
                    assert forall|t: u32| #[trigger] self.spec_cash_tier(t) == if t == tier {
                        Some(value)
                    } else {
                        if has_tier(pre, t) {
                            Some(pre[tier_index(pre, t)].1)
                        } else {
                            None
                        }
                    } by {
                        if t == tier {
                            lemma_tier_at_index(self.cash_tiers@, i as int, t);
                        } else {
                            if has_tier(pre, t) {
                                let k = tier_index(pre, t);
                                assert(pre[k].0 == t);
                                assert(self.cash_tiers@[k].0 == t);
                                lemma_tier_at_index(self.cash_tiers@, k, t);
                                lemma_tier_at_index(pre, k, t);
                            } else {
                                assert(!has_tier(self.cash_tiers@, t)) by {
                                    if has_tier(self.cash_tiers@, t) {
                                        let k = choose|k: int|
                                            0 <= k < self.cash_tiers@.len()
                                                && self.cash_tiers@[k].0 == t;
                                        assert(pre[k].0 == t);
                                    }
                                }
                            }
                        }
                    }
                }
                Ok(())
            },
            None => {
                self.cash_tiers.push((tier, value));
                proof {
                    assert(forall|j: int| 0 <= j < pre.len() ==> self.cash_tiers@[j].0 == pre[j].0);
                    assert(forall|j: int| 0 <= j < pre.len() ==> pre[j].0 != tier);
                    assert(self.cash_tiers@[pre.len() as int] == (tier, value));
                    assert(unique_tier_keys(self.cash_tiers@));
                    assert forall|t: u32| #[trigger] self.spec_cash_tier(t) == if t == tier {
                        Some(value)
                    } else {
                        if has_tier(pre, t) {
                            Some(pre[tier_index(pre, t)].1)
                        } else {
                            None
                        }
                    } by {
                        if t == tier {
                            lemma_tier_at_index(self.cash_tiers@, pre.len() as int, t);
                        } else {
                            if has_tier(pre, t) {
                                let k = tier_index(pre, t);
                                assert(pre[k].0 == t);
                                assert(self.cash_tiers@[k].0 == t);
                                lemma_tier_at_index(self.cash_tiers@, k, t);
                                lemma_tier_at_index(pre, k, t);
                            } else {
                                assert(!has_tier(self.cash_tiers@, t)) by {
                                    if has_tier(self.cash_tiers@, t) {
                                        let k = choose|k: int|
                                            0 <= k < self.cash_tiers@.len() && self.cash_tiers@[k].0
                                                == t;
                                        assert(k != pre.len() as int);
                                        assert(pre[k].0 == t);
                                    }
                                }
                            }
                        }
                    }
                }
                Ok(())
            },
        }
    }

    /// The value of cash tier `tier`.
    pub fn get_cash_tier_value(&self, tier: u32) -> (r: Result<u128, Error>)
        requires
            self.wf(),
        ensures
            match self.spec_cash_tier(tier) {
                Some(value) => r == Ok::<u128, Error>(value),
                None => r == Err::<u128, Error>(Error::NotFound),
            },
    {
        match self.find_tier(tier) {
            Some(i) => {
                let value = self.cash_tiers[i].1;
                proof {
                    lemma_tier_at_index(self.cash_tiers@, i as int, tier);
                }
                Ok(value)
            },
            None => Err(Error::NotFound),
        }
    }


    /// What `withdraw_funds` decides: only the owner withdraws, and only what
    /// the pool can pay.
    pub open spec fn withdraw_outcome(self, caller: u64, to: u64, amount: u128) -> Result<
        (),
        Error,
    > {
        if self.owner != Some(caller) {
            Err(Error::AccessDenied)
        } else if !self.ledger.can_transfer(self.address, to, amount) {
            Err(Error::TransferFailed)
        } else {
            Ok(())
        }
    }

    /// Move `amount` from the pool held by the contract to `to`. Only the
    /// owner may do this; on failure nothing changes.
    pub fn withdraw_funds(&mut self, caller: u64, to: u64, amount: u128) -> (r: Result<(), Error>)
        requires
            old(self).wf(),
        ensures
            final(self).wf(),
            r == old(self).withdraw_outcome(caller, to, amount),
            r is Err ==> *final(self) == *old(self),
            r is Ok ==> ({
                &&& (forall|x: u64|
                    #[trigger] final(self).ledger.spec_balance(x) == (if to == old(self).address {
                        old(self).ledger.spec_balance(x)
                    } else if x == old(self).address {
                        (old(self).pool() - amount) as u128
                    } else if x == to {
                        (old(self).ledger.spec_balance(to) + amount) as u128
                    } else {
                        old(self).ledger.spec_balance(x)
                    }))
                &&& (to != old(self).address ==> final(self).pool() == old(self).pool() - amount)
                &&& final(self).users == old(self).users
                &&& final(self).games == old(self).games
                &&& final(self).collectibles == old(self).collectibles
                &&& final(self).cash_tiers == old(self).cash_tiers
                &&& final(self).owner == old(self).owner
                &&& final(self).address == old(self).address
                &&& final(self).event_log@.len() == old(self).event_log@.len() + 1
                &&& forall|j: int|
                    0 <= j < old(self).event_log@.len() ==> final(self).event_log@[j] == old(
                        self,
                    ).event_log@[j]
                &&& ({
                    let e = final(self).event_log@.last();
                    &&& e is FundsWithdrawn
                    &&& e->FundsWithdrawn_0.to == to
                    &&& e->FundsWithdrawn_0.amount == amount
                })
            }),
    {
        match self.owner {
            Some(o) => {
                if o != caller {
                    return Err(Error::AccessDenied);
                }
            },
            None => {
                return Err(Error::AccessDenied);
            },
        }
        let from = self.address;
        match self.ledger.transfer(from, to, amount) {
            Ok(()) => {},
            Err(_) => {
                return Err(Error::TransferFailed);
            },
        }
        self.event_log.push(
            GameEvent::FundsWithdrawn(crate::events::FundsWithdrawnData { to, amount }),
        );
        Ok(())
    }

    /// The lobby record for `game_id`, if one was ever created.
    pub fn get_game(&self, game_id: u64) -> (r: Option<Game>)
        requires
            self.wf(),
        ensures
            match self.spec_game(game_id) {
                Some(g) => r is Some && g.same_as(r->Some_0),
                None => r is None,
            },
    {
        if game_id == 0 || game_id > self.games.len() as u64 {
            return None;
        }
        let gi: usize = (game_id - 1) as usize;
        Some(self.games[gi].clone())
    }

    /// The roster of `game_id`, in join order with the creator first; empty
    /// for an unknown identifier.
    pub fn get_game_players(&self, game_id: u64) -> (r: Vec<u64>)
        requires
            self.wf(),
        ensures
            match self.spec_game(game_id) {
                Some(g) => r@ == g.players@,
                None => r@.len() == 0,
            },
    {
        if game_id == 0 || game_id > self.games.len() as u64 {
            return Vec::new();
        }
        let gi: usize = (game_id - 1) as usize;
        let players = self.games[gi].players.clone();
        proof {
            assert(players@ =~= self.games@[gi as int].players@);
        }
        players
    }

    /// The symbols taken in `game_id`, in admission order; empty for an
    /// unknown identifier.
    pub fn get_game_player_symbols(&self, game_id: u64) -> (r: Vec<u32>)
        requires
            self.wf(),
        ensures
            match self.spec_game(game_id) {
                Some(g) => r@ == g.symbols@,
                None => r@.len() == 0,
            },
    {
        if game_id == 0 || game_id > self.games.len() as u64 {
            return Vec::new();
        }
        let gi: usize = (game_id - 1) as usize;
        let symbols = self.games[gi].symbols.clone();
        proof {
            assert(symbols@ =~= self.games@[gi as int].symbols@);
        }
        symbols
    }

    /// Everything the engine has recorded, in emission order.
    pub fn get_events(&self) -> (r: &Vec<GameEvent>)
        ensures
            r@ == self.event_log@,
    {
        &self.event_log
    }

    /// The pooled balance held by the contract's own address.
    pub fn pool_balance(&self) -> (r: u128)
        requires
            self.wf(),
        ensures
            r == self.pool(),
    {
        self.ledger.balance_of(self.address)
    }

    /// The stored participant record for `address`, if registered.
    pub fn get_user(&self, address: u64) -> (r: Option<User>)
        requires
            self.wf(),
        ensures
            match self.spec_user(address) {
                Some(u) => r is Some && u.same_as(r->Some_0),
                None => r is None,
            },
    {
        match self.find_user(address) {
            Some(i) => {
                proof {
                    lemma_user_at_index(self.users@, i as int, address);
                }
                Some(self.users[i].clone())
            },
            None => None,
        }
    }
}

/// Roster uniqueness, symbol uniqueness and the capacity bound, as standing
/// invariants: in any well-formed engine state — and every operation of the
/// engine both requires and re-establishes well-formedness — no address
/// appears twice in a lobby's roster, no symbol value appears twice in its
/// symbol set, and the roster length never exceeds the configured target
/// player count, which itself lies in 2 ..= 8.
pub proof fn lemma_lobby_invariants(c: TycoonContract, game_id: u64)
    requires
        c.wf(),
        c.spec_game(game_id) is Some,
    ensures
        ({
            let g = c.spec_game(game_id)->Some_0;
            &&& g.players@.no_duplicates()
            &&& g.symbols@.no_duplicates()
            &&& g.players@.len() <= g.settings.number_of_players
            &&& 2 <= g.settings.number_of_players <= 8
        }),
{
    let i = game_id - 1int;
    assert(c.games@[i].id == i + 1 && c.games@[i].wf());
}

/// The capacity bound at admission: a join attempted on a lobby whose roster
/// has reached the configured target never succeeds; for a registered player
/// acting under their registered username, with the lobby waiting and the
/// right code presented, it fails with exactly `CapacityExceeded`.
pub proof fn lemma_full_lobby_rejects_join(
    c: TycoonContract,
    game_id: u64,
    player: u64,
    player_username: Seq<u8>,
    player_symbol: u32,
    join_code: Seq<u8>,
)
    requires
        c.wf(),
        c.spec_game(game_id) is Some,
        c.spec_game(game_id)->Some_0.players@.len()
            >= c.spec_game(game_id)->Some_0.settings.number_of_players,
    ensures
        c.join_outcome(game_id, player, player_username, player_symbol, join_code) is Err,
        ({
            let g = c.spec_game(game_id)->Some_0;
            c.spec_registered(player) && c.username_matches(player, player_username) && g.status
                is Waiting && (g.settings.game_type is Private ==> g.settings.code@ == join_code)
                ==> c.join_outcome(game_id, player, player_username, player_symbol, join_code)
                == Err::<(), Error>(Error::CapacityExceeded)
        }),
{
}

/// The lifecycle gates: joining or starting a lobby that is no longer
/// `Waiting` fails with `InvalidState` (once the identity gates have passed),
/// and exiting a lobby that is not `InProgress` fails with `InvalidState`.
/// Together with the operations' own contracts — `start_game` is the only
/// operation that changes a status, and only from `Waiting` to `InProgress` —
/// a lobby's status only ever advances.
pub proof fn lemma_status_gates(
    c: TycoonContract,
    game_id: u64,
    player: u64,
    player_username: Seq<u8>,
    player_symbol: u32,
    join_code: Seq<u8>,
    caller: u64,
)
    requires
        c.wf(),
        c.spec_game(game_id) is Some,
    ensures
        ({
            let g = c.spec_game(game_id)->Some_0;
            &&& (!(g.status is Waiting) && c.spec_registered(player) && c.username_matches(
                player,
                player_username,
            ) ==> c.join_outcome(game_id, player, player_username, player_symbol, join_code)
                == Err::<(), Error>(Error::InvalidState))
            &&& (!(g.status is Waiting) && caller == g.creator ==> c.start_outcome(game_id, caller)
                == Err::<(), Error>(Error::InvalidState))
            &&& (!(g.status is InProgress) ==> c.exit_outcome(game_id, player) == Err::<
                (),
                Error,
            >(Error::InvalidState))
        }),
{
}

/// Private access control: a join that presents a code other than the stored
/// private code fails with `AccessDenied`, whatever the roster, the capacity
/// or the proposed symbol.
pub proof fn lemma_private_code_gate(
    c: TycoonContract,
    game_id: u64,
    player: u64,
    player_username: Seq<u8>,
    player_symbol: u32,
    join_code: Seq<u8>,
)
    requires
        c.wf(),
        c.spec_registered(player),
        c.username_matches(player, player_username),
        c.spec_game(game_id) is Some,
        c.spec_game(game_id)->Some_0.status is Waiting,
        c.spec_game(game_id)->Some_0.settings.game_type is Private,
        c.spec_game(game_id)->Some_0.settings.code@ != join_code,
    ensures
        c.join_outcome(game_id, player, player_username, player_symbol, join_code) == Err::<
            (),
            Error,
        >(Error::AccessDenied),
{
}

/// Escrow conservation, one admission at a time: a lobby's derived escrow —
/// the configured stake times the roster length — grows by exactly the stake
/// when one player is admitted. Together with `join_game`'s contract (the
/// pool grows by exactly the stake on a successful join, and by nothing on a
/// failed one) the pool attributable to a lobby after `k` admissions is
/// exactly `stake × k`.
pub proof fn lemma_escrow_grows_by_stake(g: Game, g2: Game)
    requires
        g2.settings == g.settings,
        g2.players@.len() == g.players@.len() + 1,
    ensures
        g2.escrow() == g.escrow() + g.settings.stake_amount,
{
    vstd::arithmetic::mul::lemma_mul_is_distributive_add(
        g.settings.stake_amount as int,
        g.players@.len() as int,
        1,
    );
}

} // verus!
