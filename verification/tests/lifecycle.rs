//! Lobby creation, admission, start and exit tests.

use tycoon_game::{Error, GameEvent, GameStatus, GameType, TycoonContract};

const CONTRACT: u64 = 9000;

fn setup() -> TycoonContract {
    TycoonContract::new(CONTRACT)
}

fn register(c: &mut TycoonContract, address: u64, username: &[u8]) {
    assert_eq!(c.register_player(username.to_vec(), address, address, 0), Ok(()));
}

// ===== CREATE GAME TESTS =====

#[test]
fn test_create_game_public_success() {
    let mut c = setup();
    let creator: u64 = 1;
    register(&mut c, creator, b"creator1");

    let game_id = c
        .create_game(
            creator,
            &b"creator1".to_vec(),
            GameType::Public,
            1,
            4,
            Vec::new(),
            1_000_0000,
            0,
            0,
        )
        .unwrap();

    assert_eq!(game_id, 1);

    let game = c.get_game(game_id);
    assert!(game.is_some());
    let g = game.unwrap();
    assert_eq!(g.id, 1);
    assert_eq!(g.creator, creator);
    assert_eq!(g.settings.number_of_players, 4);
    assert_eq!(g.settings.stake_amount, 0);
    assert!(matches!(g.settings.game_type, GameType::Public));

    let players = c.get_game_players(game_id);
    assert_eq!(players.len(), 1);
    assert_eq!(players.get(0), Some(&creator));
}

#[test]
fn test_create_game_private_with_code_success() {
    let mut c = setup();
    let creator: u64 = 1;
    register(&mut c, creator, b"host");

    let code = b"SECRET123".to_vec();
    let game_id = c
        .create_game(
            creator,
            &b"host".to_vec(),
            GameType::Private,
            2,
            2,
            code,
            500_0000,
            0,
            0,
        )
        .unwrap();

    assert_eq!(game_id, 1);
    let game = c.get_game(game_id).unwrap();
    assert!(matches!(game.settings.game_type, GameType::Private));
    assert_eq!(game.settings.code, b"SECRET123".to_vec());
}

#[test]
fn test_create_game_with_stake_transfers_usdc() {
    let mut c = setup();
    let creator: u64 = 1;
    register(&mut c, creator, b"staker");

    assert_eq!(c.ledger.mint(creator, 1000), Ok(()));

    let stake: u128 = 100;
    let game_id = c
        .create_game(
            creator,
            &b"staker".to_vec(),
            GameType::Public,
            0,
            2,
            Vec::new(),
            1_000_0000,
            stake,
            0,
        )
        .unwrap();

    assert_eq!(game_id, 1);
    assert_eq!(c.pool_balance(), 100);
    assert_eq!(c.ledger.balance_of(creator), 900);
}

#[test]
fn test_create_game_unregistered_creator_fails() {
    let mut c = setup();
    let creator: u64 = 1;
    // creator not registered
    let r = c.create_game(
        creator,
        &b"nobody".to_vec(),
        GameType::Public,
        1,
        4,
        Vec::new(),
        1_000_0000,
        0,
        0,
    );
    assert_eq!(r, Err(Error::NotRegistered));
}

#[test]
fn test_create_game_private_without_code_fails() {
    let mut c = setup();
    let creator: u64 = 1;
    register(&mut c, creator, b"host");

    let r = c.create_game(
        creator,
        &b"host".to_vec(),
        GameType::Private,
        1,
        2,
        Vec::new(),
        500_0000,
        0,
        0,
    );
    assert_eq!(r, Err(Error::InvalidConfiguration));
}

#[test]
fn test_create_game_invalid_players_too_few_fails() {
    let mut c = setup();
    let creator: u64 = 1;
    register(&mut c, creator, b"host");

    let r = c.create_game(
        creator,
        &b"host".to_vec(),
        GameType::Public,
        1,
        1,
        Vec::new(),
        1_000_0000,
        0,
        0,
    );
    assert_eq!(r, Err(Error::InvalidConfiguration));
}

#[test]
fn test_create_game_invalid_players_too_many_fails() {
    let mut c = setup();
    let creator: u64 = 1;
    register(&mut c, creator, b"host");

    let r = c.create_game(
        creator,
        &b"host".to_vec(),
        GameType::Public,
        1,
        9,
        Vec::new(),
        1_000_0000,
        0,
        0,
    );
    assert_eq!(r, Err(Error::InvalidConfiguration));
}

#[test]
fn test_create_game_wrong_username_fails() {
    let mut c = setup();
    let creator: u64 = 1;
    register(&mut c, creator, b"realname");

    let r = c.create_game(
        creator,
        &b"othername".to_vec(),
        GameType::Public,
        1,
        4,
        Vec::new(),
        1_000_0000,
        0,
        0,
    );
    assert_eq!(r, Err(Error::AccessDenied));
}

#[test]
fn test_create_game_stake_without_funds_fails() {
    let mut c = setup();
    let creator: u64 = 1;
    register(&mut c, creator, b"broke");

    let r = c.create_game(
        creator,
        &b"broke".to_vec(),
        GameType::Public,
        1,
        2,
        Vec::new(),
        1_000_0000,
        100,
        0,
    );
    assert_eq!(r, Err(Error::TransferFailed));
    // The whole creation failed: no record, no pool movement.
    assert!(c.get_game(1).is_none());
    assert_eq!(c.pool_balance(), 0);
}

#[test]
fn test_create_game_emits_game_created_event() {
    let mut c = setup();
    let creator: u64 = 1;
    register(&mut c, creator, b"emitter");

    let game_id = c
        .create_game(
            creator,
            &b"emitter".to_vec(),
            GameType::Public,
            1,
            2,
            Vec::new(),
            1_000_0000,
            0,
            0,
        )
        .unwrap();

    let events = c.get_events();
    assert!(!events.is_empty(), "a creation event should be recorded");
    match events.last().unwrap() {
        GameEvent::GameCreated(d) => {
            assert_eq!(d.game_id, game_id);
            assert_eq!(d.creator, creator);
            assert_eq!(d.number_of_players, 2);
        }
        other => panic!("unexpected event {:?}", other),
    }
}

#[test]
fn test_create_game_ids_increase_monotonically() {
    let mut c = setup();
    register(&mut c, 1, b"host");
    for expected in 1..=5u64 {
        let id = c
            .create_game(
                1,
                &b"host".to_vec(),
                GameType::Public,
                1,
                4,
                Vec::new(),
                0,
                0,
                0,
            )
            .unwrap();
        assert_eq!(id, expected);
    }
}

// ===== JOIN GAME TESTS =====

fn public_lobby(c: &mut TycoonContract, creator: u64, target: u32, stake: u128) -> u64 {
    register(c, creator, b"host");
    c.create_game(
        creator,
        &b"host".to_vec(),
        GameType::Public,
        1,
        target,
        Vec::new(),
        1_000_0000,
        stake,
        0,
    )
    .unwrap()
}

#[test]
fn test_join_game_public_success() {
    let mut c = setup();
    let creator: u64 = 1;
    let game_id = public_lobby(&mut c, creator, 4, 0);

    let player: u64 = 2;
    register(&mut c, player, b"joiner");

    assert_eq!(
        c.join_game(game_id, player, &b"joiner".to_vec(), 2, &Vec::new()),
        Ok(())
    );

    let players = c.get_game_players(game_id);
    assert_eq!(players.len(), 2);
    assert_eq!(players.get(0), Some(&creator));
    assert_eq!(players.get(1), Some(&player));
}

#[test]
fn test_join_game_private_with_correct_code_success() {
    let mut c = setup();
    let creator: u64 = 1;
    register(&mut c, creator, b"host");

    let code = b"SECRET99".to_vec();
    let game_id = c
        .create_game(
            creator,
            &b"host".to_vec(),
            GameType::Private,
            1,
            2,
            code.clone(),
            1_000_0000,
            0,
            0,
        )
        .unwrap();

    let player: u64 = 2;
    register(&mut c, player, b"friend");

    assert_eq!(c.join_game(game_id, player, &b"friend".to_vec(), 2, &code), Ok(()));
    assert_eq!(c.get_game_players(game_id).len(), 2);
}

#[test]
fn test_join_game_private_with_wrong_code_fails() {
    let mut c = setup();
    let creator: u64 = 1;
    register(&mut c, creator, b"host");

    let code = b"SECRET99".to_vec();
    let game_id = c
        .create_game(
            creator,
            &b"host".to_vec(),
            GameType::Private,
            1,
            2,
            code,
            1_000_0000,
            0,
            0,
        )
        .unwrap();

    let player: u64 = 2;
    register(&mut c, player, b"stranger");

    let r = c.join_game(game_id, player, &b"stranger".to_vec(), 2, &b"WRONG".to_vec());
    assert_eq!(r, Err(Error::AccessDenied));
    assert_eq!(c.get_game_players(game_id).len(), 1);
}

#[test]
fn test_join_game_with_stake_transfers_usdc() {
    let mut c = setup();
    let creator: u64 = 1;
    register(&mut c, creator, b"host");
    assert_eq!(c.ledger.mint(creator, 500), Ok(()));

    let stake: u128 = 100;
    let game_id = c
        .create_game(
            creator,
            &b"host".to_vec(),
            GameType::Public,
            1,
            2,
            Vec::new(),
            1_000_0000,
            stake,
            0,
        )
        .unwrap();

    let player: u64 = 2;
    assert_eq!(c.ledger.mint(player, 500), Ok(()));
    register(&mut c, player, b"joiner");

    assert_eq!(
        c.join_game(game_id, player, &b"joiner".to_vec(), 2, &Vec::new()),
        Ok(())
    );

    // creator's 100 + joiner's 100
    assert_eq!(c.pool_balance(), 200);
    assert_eq!(c.ledger.balance_of(player), 400);
}

#[test]
fn test_join_game_unregistered_player_fails() {
    let mut c = setup();
    let game_id = public_lobby(&mut c, 1, 2, 0);

    let player: u64 = 2;
    // player not registered
    let r = c.join_game(game_id, player, &b"nobody".to_vec(), 2, &Vec::new());
    assert_eq!(r, Err(Error::NotRegistered));
}

#[test]
fn test_join_game_symbol_already_taken_fails() {
    let mut c = setup();
    let game_id = public_lobby(&mut c, 1, 4, 0);

    let player: u64 = 2;
    register(&mut c, player, b"joiner");

    // Symbol 1 is the creator's.
    let r = c.join_game(game_id, player, &b"joiner".to_vec(), 1, &Vec::new());
    assert_eq!(r, Err(Error::DuplicateSymbol));
}

#[test]
fn test_join_game_full_fails() {
    let mut c = setup();
    let game_id = public_lobby(&mut c, 1, 2, 0);

    let player1: u64 = 2;
    register(&mut c, player1, b"player1");
    assert_eq!(
        c.join_game(game_id, player1, &b"player1".to_vec(), 2, &Vec::new()),
        Ok(())
    );

    let player2: u64 = 3;
    register(&mut c, player2, b"player2");
    let r = c.join_game(game_id, player2, &b"player2".to_vec(), 3, &Vec::new());
    assert_eq!(r, Err(Error::CapacityExceeded));
}

#[test]
fn test_join_game_twice_fails() {
    let mut c = setup();
    let game_id = public_lobby(&mut c, 1, 4, 0);

    let player: u64 = 2;
    register(&mut c, player, b"joiner");
    assert_eq!(
        c.join_game(game_id, player, &b"joiner".to_vec(), 2, &Vec::new()),
        Ok(())
    );
    // A member cannot be admitted again, even under a fresh symbol.
    let r = c.join_game(game_id, player, &b"joiner".to_vec(), 3, &Vec::new());
    assert_eq!(r, Err(Error::AlreadyJoined));
    assert_eq!(c.get_game_players(game_id).len(), 2);
}

#[test]
fn test_join_game_unknown_id_fails() {
    let mut c = setup();
    register(&mut c, 2, b"joiner");
    let r = c.join_game(42, 2, &b"joiner".to_vec(), 2, &Vec::new());
    assert_eq!(r, Err(Error::NotFound));
}

#[test]
fn test_join_game_insufficient_stake_fails_atomically() {
    let mut c = setup();
    let creator: u64 = 1;
    register(&mut c, creator, b"host");
    assert_eq!(c.ledger.mint(creator, 100), Ok(()));

    let game_id = c
        .create_game(
            creator,
            &b"host".to_vec(),
            GameType::Public,
            1,
            2,
            Vec::new(),
            1_000_0000,
            100,
            0,
        )
        .unwrap();

    let player: u64 = 2;
    register(&mut c, player, b"joiner");
    assert_eq!(c.ledger.mint(player, 99), Ok(()));

    // The transfer fails, so the player must not end up on the roster.
    let r = c.join_game(game_id, player, &b"joiner".to_vec(), 2, &Vec::new());
    assert_eq!(r, Err(Error::TransferFailed));
    assert_eq!(c.get_game_players(game_id).len(), 1);
    assert_eq!(c.pool_balance(), 100);
    assert_eq!(c.ledger.balance_of(player), 99);
}

#[test]
fn test_join_game_emits_player_joined_event() {
    let mut c = setup();
    let game_id = public_lobby(&mut c, 1, 4, 0);

    let player: u64 = 2;
    register(&mut c, player, b"joiner");
    assert_eq!(
        c.join_game(game_id, player, &b"joiner".to_vec(), 2, &Vec::new()),
        Ok(())
    );

    let events = c.get_events();
    assert!(!events.is_empty(), "an admission event should be recorded");
    match events.last().unwrap() {
        GameEvent::PlayerJoined(d) => {
            assert_eq!(d.game_id, game_id);
            assert_eq!(d.player, player);
            assert_eq!(d.player_symbol, 2);
            assert_eq!(d.joined_count, 2);
        }
        other => panic!("unexpected event {:?}", other),
    }
}

// ===== START GAME TESTS =====

#[test]
fn test_start_game_success() {
    let mut c = setup();
    let creator: u64 = 1;
    let game_id = public_lobby(&mut c, creator, 2, 0);

    let player: u64 = 2;
    register(&mut c, player, b"joiner");
    assert_eq!(
        c.join_game(game_id, player, &b"joiner".to_vec(), 2, &Vec::new()),
        Ok(())
    );

    let game_before = c.get_game(game_id).unwrap();
    assert!(matches!(game_before.status, GameStatus::Waiting));

    assert_eq!(c.start_game(game_id, creator), Ok(()));

    let game_after = c.get_game(game_id).unwrap();
    assert!(matches!(game_after.status, GameStatus::InProgress));
}

#[test]
fn test_start_game_insufficient_players_fails() {
    let mut c = setup();
    let creator: u64 = 1;
    let game_id = public_lobby(&mut c, creator, 2, 0);

    // Only the creator is present.
    assert_eq!(c.start_game(game_id, creator), Err(Error::InvalidState));
}

#[test]
fn test_start_game_unauthorized_fails() {
    let mut c = setup();
    let creator: u64 = 1;
    let game_id = public_lobby(&mut c, creator, 2, 0);

    let player: u64 = 2;
    register(&mut c, player, b"joiner");
    assert_eq!(
        c.join_game(game_id, player, &b"joiner".to_vec(), 2, &Vec::new()),
        Ok(())
    );

    let stranger: u64 = 77;
    assert_eq!(c.start_game(game_id, stranger), Err(Error::AccessDenied));
    let game = c.get_game(game_id).unwrap();
    assert!(matches!(game.status, GameStatus::Waiting));
}

#[test]
fn test_start_game_twice_fails() {
    let mut c = setup();
    let creator: u64 = 1;
    let game_id = public_lobby(&mut c, creator, 2, 0);
    register(&mut c, 2, b"joiner");
    assert_eq!(c.join_game(game_id, 2, &b"joiner".to_vec(), 2, &Vec::new()), Ok(()));
    assert_eq!(c.start_game(game_id, creator), Ok(()));
    assert_eq!(c.start_game(game_id, creator), Err(Error::InvalidState));
}

#[test]
fn test_start_game_emits_game_started_event() {
    let mut c = setup();
    let creator: u64 = 1;
    let game_id = public_lobby(&mut c, creator, 2, 0);
    register(&mut c, 2, b"joiner");
    assert_eq!(c.join_game(game_id, 2, &b"joiner".to_vec(), 2, &Vec::new()), Ok(()));
    assert_eq!(c.start_game(game_id, creator), Ok(()));

    match c.get_events().last().unwrap() {
        GameEvent::GameStarted(d) => {
            assert_eq!(d.game_id, game_id);
            assert_eq!(d.player_count, 2);
        }
        other => panic!("unexpected event {:?}", other),
    }
}

// ===== EXIT GAME TESTS =====

#[test]
fn test_exit_game_removes_player_preserving_order() {
    let mut c = setup();
    let creator: u64 = 1;
    let game_id = public_lobby(&mut c, creator, 4, 0);
    register(&mut c, 2, b"second");
    register(&mut c, 3, b"third");
    assert_eq!(c.join_game(game_id, 2, &b"second".to_vec(), 2, &Vec::new()), Ok(()));
    assert_eq!(c.join_game(game_id, 3, &b"third".to_vec(), 3, &Vec::new()), Ok(()));
    assert_eq!(c.start_game(game_id, creator), Ok(()));

    assert_eq!(c.exit_game(game_id, 2), Ok(()));

    // Order of the remaining entries is preserved.
    assert_eq!(c.get_game_players(game_id), vec![1, 3]);
    // The exited player's symbol stays taken: symbols are never freed here.
    assert_eq!(c.get_game_player_symbols(game_id), vec![1, 2, 3]);
}

#[test]
fn test_exit_game_keeps_stake_in_pool() {
    let mut c = setup();
    let creator: u64 = 1;
    register(&mut c, creator, b"host");
    assert_eq!(c.ledger.mint(creator, 100), Ok(()));
    assert_eq!(c.ledger.mint(2, 100), Ok(()));

    let game_id = c
        .create_game(
            creator,
            &b"host".to_vec(),
            GameType::Public,
            1,
            2,
            Vec::new(),
            1_000_0000,
            100,
            0,
        )
        .unwrap();
    register(&mut c, 2, b"joiner");
    assert_eq!(c.join_game(game_id, 2, &b"joiner".to_vec(), 2, &Vec::new()), Ok(()));
    assert_eq!(c.start_game(game_id, creator), Ok(()));
    assert_eq!(c.pool_balance(), 200);

    // Voluntary exit: no refund, no redistribution — the settlement rule is an
    // unresolved gap, deliberately preserved.
    assert_eq!(c.exit_game(game_id, 2), Ok(()));
    assert_eq!(c.pool_balance(), 200);
    assert_eq!(c.ledger.balance_of(2), 0);
}

#[test]
fn test_exit_game_waiting_lobby_fails() {
    let mut c = setup();
    let creator: u64 = 1;
    let game_id = public_lobby(&mut c, creator, 2, 0);
    assert_eq!(c.exit_game(game_id, creator), Err(Error::InvalidState));
}

#[test]
fn test_exit_game_non_member_fails() {
    let mut c = setup();
    let creator: u64 = 1;
    let game_id = public_lobby(&mut c, creator, 2, 0);
    register(&mut c, 2, b"joiner");
    assert_eq!(c.join_game(game_id, 2, &b"joiner".to_vec(), 2, &Vec::new()), Ok(()));
    assert_eq!(c.start_game(game_id, creator), Ok(()));

    assert_eq!(c.exit_game(game_id, 99), Err(Error::AccessDenied));
    assert_eq!(c.get_game_players(game_id).len(), 2);
}

#[test]
fn test_exit_game_unknown_id_fails() {
    let mut c = setup();
    assert_eq!(c.exit_game(5, 1), Err(Error::NotFound));
}

#[test]
fn test_exit_game_emits_player_exited_event() {
    let mut c = setup();
    let creator: u64 = 1;
    let game_id = public_lobby(&mut c, creator, 2, 0);
    register(&mut c, 2, b"joiner");
    assert_eq!(c.join_game(game_id, 2, &b"joiner".to_vec(), 2, &Vec::new()), Ok(()));
    assert_eq!(c.start_game(game_id, creator), Ok(()));
    assert_eq!(c.exit_game(game_id, 2), Ok(()));

    match c.get_events().last().unwrap() {
        GameEvent::PlayerExited(d) => {
            assert_eq!(d.game_id, game_id);
            assert_eq!(d.player, 2);
        }
        other => panic!("unexpected event {:?}", other),
    }
}

// ===== VIEW TESTS =====

#[test]
fn test_get_game_view() {
    let mut c = setup();
    let creator: u64 = 1;
    let game_id = public_lobby(&mut c, creator, 4, 0);

    let fetched_game = c.get_game(game_id);
    assert!(fetched_game.is_some());
    let g = fetched_game.unwrap();
    assert_eq!(g.id, game_id);
    assert_eq!(g.creator, creator);
    assert_eq!(g.settings.number_of_players, 4);

    assert!(c.get_game(9999).is_none());
}

#[test]
fn test_get_game_players_view() {
    let mut c = setup();
    let creator: u64 = 1;
    let game_id = public_lobby(&mut c, creator, 4, 0);

    let init_players = c.get_game_players(game_id);
    assert_eq!(init_players.len(), 1);
    assert_eq!(*init_players.get(0).unwrap(), creator);

    let joiner: u64 = 2;
    register(&mut c, joiner, b"joiner");
    assert_eq!(c.join_game(game_id, joiner, &b"joiner".to_vec(), 2, &Vec::new()), Ok(()));

    let updated_players = c.get_game_players(game_id);
    assert_eq!(updated_players.len(), 2);
    assert_eq!(*updated_players.get(0).unwrap(), creator);
    assert_eq!(*updated_players.get(1).unwrap(), joiner);
}
