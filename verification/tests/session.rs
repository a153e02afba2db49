use fortyone::auth::{Claims, TOKEN_EXPIRY_SECS};
use fortyone::card::Card;
use fortyone::config::Config;
use fortyone::error::AppError;
use fortyone::game::{Game, GamePhase};
use fortyone::ids::{generate_short_uuid, short_id_of};
use fortyone::manager::{GameManager, GameState};
use fortyone::session::{
    apply_action, check_join_params, check_lobby_join, check_ws_admission, check_ws_claims,
    end_game_data, expire_reconnect, game_data_for, has_player_id, join_player, leave_game,
    lookup_name,
    name_in_use, parse_card, player_list, validate_game_id, ActionOutcome, DisconnectAction,
    GameEvent, GameEventType, GameRequestAction, GameStateStatus, PersistedGameState,
    TimeoutOutcome,
};
use std::collections::HashMap;

fn invalid_input(e: AppError) -> String {
    match e {
        AppError::InvalidInput(m) => m,
        _ => panic!("expected invalid input"),
    }
}

fn lobby(names: &[(u128, &str)]) -> PersistedGameState {
    PersistedGameState {
        id: "abc123".to_string(),
        status: GameStateStatus::Lobby,
        game: None,
        players: names.iter().map(|(id, n)| (*id, n.to_string())).collect(),
    }
}

fn card(s: &str) -> Card {
    Card::from_string(s).unwrap()
}

/// A started two-player game with a known deal: Alice (1) holds the clubs
/// C5 C4 C3 C2, Bob (2) the hearts HJ HQ HK HA; the deck is SK D3 (D3 on
/// top).
fn started() -> PersistedGameState {
    let deck: Vec<Card> = ["SK", "D3", "HA", "HK", "HQ", "HJ", "C2", "C3", "C4", "C5"]
        .iter()
        .map(|s| card(s))
        .collect();
    let mut p = lobby(&[(1, "Alice"), (2, "Bob")]);
    p.game = Some(Game::deal(9, vec![1, 2], deck).unwrap());
    p.status = GameStateStatus::InProgress;
    p
}

#[test]
fn game_ids_are_checked() {
    assert!(validate_game_id("abc123").is_ok());
    assert!(validate_game_id("ABCDEFGHIJ12").is_ok());
    assert_eq!(invalid_input(validate_game_id("").unwrap_err()), "Invalid game ID format");
    assert!(validate_game_id("toolonggameid123").is_err());
    assert!(validate_game_id("ab-cd").is_err());
    assert!(validate_game_id("é").is_err());
    assert!(validate_game_id("nonexist").is_ok());
}

#[test]
fn join_parameters_are_checked() {
    let required = |r: Result<String, AppError>| invalid_input(r.unwrap_err());
    assert_eq!(required(check_join_params("abc", &None)), "player_name is required");
    assert_eq!(required(check_join_params("abc", &Some("   ".to_string()))), "player_name is required");
    assert_eq!(required(check_join_params("abc", &Some(String::new()))), "player_name is required");
    let long_name = "a".repeat(33);
    assert_eq!(
        required(check_join_params("abc", &Some(long_name))),
        "player_name must be 32 characters or fewer"
    );
    assert_eq!(check_join_params("abc", &Some("a".repeat(32))).unwrap().len(), 32);
    assert_eq!(check_join_params("abc", &Some("  Alice \t".to_string())).unwrap(), "Alice");
    assert_eq!(
        required(check_join_params("toolonggameid123", &Some("Alice".to_string()))),
        "Invalid game ID format"
    );
}

#[test]
fn lobby_admission_is_checked() {
    assert!(matches!(check_lobby_join(&None, "Alice"), Err(AppError::GameNotFound)));
    let mut p = lobby(&[(1, "Alice")]);
    assert_eq!(invalid_input(check_lobby_join(&Some(lobby(&[(1, "Alice")])), "Alice").unwrap_err()), "Name already taken");
    assert!(check_lobby_join(&Some(lobby(&[(1, "Alice")])), "Bob").is_ok());
    p.status = GameStateStatus::InProgress;
    assert!(matches!(check_lobby_join(&Some(p), "Bob"), Err(AppError::GameAlreadyStarted)));
    let full = lobby(&[(1, "A"), (2, "B"), (3, "C"), (4, "D")]);
    assert!(matches!(check_lobby_join(&Some(full), "E"), Err(AppError::GameFull)));
}

#[test]
fn issued_claims_are_accepted_for_their_game() {
    let id = 0x1234_5678_9abc_def0_1122_3344_5566_7788u128;
    let claims = Claims::issue("abc123", id, "Alice", 1000);
    assert_eq!(claims.exp, 1000 + TOKEN_EXPIRY_SECS);
    assert_eq!(claims.player_name, "Alice");
    assert_eq!(claims.player_id, "12345678-9abc-def0-1122-334455667788");
    assert_eq!(check_ws_claims(&claims, "abc123"), Ok(id));
    assert_eq!(check_ws_claims(&claims, "other"), Err((401, "Token game mismatch")));
    let bad = Claims {
        game_id: "abc123".to_string(),
        player_id: "not-an-id".to_string(),
        player_name: "Alice".to_string(),
        exp: 0,
    };
    assert_eq!(check_ws_claims(&bad, "abc123"), Err((401, "Invalid player id in token")));
}

#[test]
fn connections_are_admitted_or_refused() {
    assert_eq!(check_ws_admission(&None, 1, "Alice"), Err((404, "Game not found")));
    let p = lobby(&[(1, "Alice")]);
    assert_eq!(check_ws_admission(&Some(p), 1, "Alice"), Ok(true));
    assert_eq!(check_ws_admission(&Some(lobby(&[(1, "Alice")])), 2, "Bob"), Ok(false));
    assert_eq!(
        check_ws_admission(&Some(lobby(&[(1, "Alice")])), 2, "Alice"),
        Err((400, "Name already taken"))
    );
    let full = lobby(&[(1, "A"), (2, "B"), (3, "C"), (4, "D")]);
    assert_eq!(check_ws_admission(&Some(full), 5, "E"), Err((400, "Game is full")));
    let mut s = started();
    assert_eq!(check_ws_admission(&Some(started()), 3, "Carol"), Err((400, "Game already started")));
    assert_eq!(check_ws_admission(&Some(started()), 2, "Bob"), Ok(true));
    s.status = GameStateStatus::Finished;
    assert_eq!(check_ws_admission(&Some(s), 2, "Bob"), Err((400, "Game already finished")));
}

#[test]
fn starting_a_game_deals_to_the_joined_players() {
    let mut p = lobby(&[(1, "Alice"), (2, "Bob")]);
    let out = apply_action(&mut p, 1, GameRequestAction::StartGame, &None);
    assert_eq!(
        out,
        ActionOutcome::Applied {
            event: GameEvent { event_type: GameEventType::GameStart, from: None, to: None },
            game_over: false
        }
    );
    assert_eq!(p.status, GameStateStatus::InProgress);
    let g = p.game.as_ref().unwrap();
    assert_eq!(g.players.len(), 2);
    assert_eq!(g.players[0].id, 1);
    assert_eq!(g.players[1].id, 2);
    assert_eq!(g.deck.len(), 44);
    // a second start is refused
    assert_eq!(apply_action(&mut p, 1, GameRequestAction::StartGame, &None), ActionOutcome::Rejected);
}

#[test]
fn actions_before_start_or_by_strangers_are_refused() {
    let mut p = lobby(&[(1, "Alice")]);
    assert_eq!(apply_action(&mut p, 1, GameRequestAction::Draw, &None), ActionOutcome::Rejected);
    let mut s = started();
    assert_eq!(apply_action(&mut s, 7, GameRequestAction::Draw, &None), ActionOutcome::Rejected);
    assert_eq!(apply_action(&mut s, 2, GameRequestAction::Draw, &None), ActionOutcome::Rejected);
}

#[test]
fn a_turn_is_played_through_actions() {
    let mut s = started();
    let out = apply_action(&mut s, 1, GameRequestAction::Draw, &None);
    assert_eq!(
        out,
        ActionOutcome::Applied {
            event: GameEvent { event_type: GameEventType::Draw, from: None, to: Some(0) },
            game_over: false
        }
    );
    assert_eq!(apply_action(&mut s, 1, GameRequestAction::Discard, &None), ActionOutcome::Rejected);
    assert_eq!(
        apply_action(&mut s, 1, GameRequestAction::Discard, &Some("ZZ".to_string())),
        ActionOutcome::Rejected
    );
    let out = apply_action(&mut s, 1, GameRequestAction::Discard, &Some("D3".to_string()));
    assert_eq!(
        out,
        ActionOutcome::Applied {
            event: GameEvent { event_type: GameEventType::Discard, from: Some(0), to: Some(1) },
            game_over: false
        }
    );
    let out = apply_action(&mut s, 2, GameRequestAction::TakeBin, &None);
    assert_eq!(
        out,
        ActionOutcome::Applied {
            event: GameEvent { event_type: GameEventType::TakeBin, from: Some(1), to: Some(1) },
            game_over: false
        }
    );
    // Bob closes with his four hearts (41) after discarding D3
    let out = apply_action(&mut s, 2, GameRequestAction::Close, &Some("D3".to_string()));
    assert_eq!(
        out,
        ActionOutcome::Applied {
            event: GameEvent { event_type: GameEventType::Close, from: Some(1), to: Some(0) },
            game_over: true
        }
    );
    assert_eq!(s.status, GameStateStatus::Finished);
    assert_eq!(s.game.as_ref().unwrap().phase, GamePhase::GameEnded);
    let end = end_game_data(&s).unwrap();
    assert_eq!(end.winner_name, Some("Bob".to_string()));
    assert_eq!(end.players[0].name, "Alice");
    assert_eq!(end.players[0].score, 14);
    assert_eq!(end.players[1].score, 41);
    assert_eq!(end.players[1].hand, vec!["HJ", "HQ", "HK", "HA"]);
}

#[test]
fn a_discard_with_an_empty_deck_ends_the_game() {
    let deck: Vec<Card> = ["D3", "HA", "HK", "HQ", "HJ", "C2", "C3", "C4", "C5"]
        .iter()
        .map(|s| card(s))
        .collect();
    let mut s = lobby(&[(1, "Alice"), (2, "Bob")]);
    s.game = Some(Game::deal(9, vec![1, 2], deck).unwrap());
    s.status = GameStateStatus::InProgress;
    apply_action(&mut s, 1, GameRequestAction::Draw, &None);
    let out = apply_action(&mut s, 1, GameRequestAction::Discard, &Some("D3".to_string()));
    assert_eq!(
        out,
        ActionOutcome::Applied {
            event: GameEvent { event_type: GameEventType::Close, from: Some(0), to: Some(1) },
            game_over: true
        }
    );
    assert_eq!(s.status, GameStateStatus::Finished);
}

#[test]
fn a_low_close_is_refused() {
    let mut s = started();
    apply_action(&mut s, 1, GameRequestAction::Draw, &None);
    assert_eq!(
        apply_action(&mut s, 1, GameRequestAction::Close, &Some("D3".to_string())),
        ActionOutcome::Rejected
    );
    assert_eq!(s.status, GameStateStatus::InProgress);
}

#[test]
fn what_each_player_is_shown() {
    let s = started();
    let ev = GameEvent { event_type: GameEventType::Reconnect, from: None, to: None };
    let d = game_data_for(&s, 2, ev).unwrap();
    assert_eq!(d.player_id, 2);
    assert_eq!(d.player_pos, 1);
    assert_eq!(d.num_of_players, 2);
    assert_eq!(d.card_left, 2);
    assert_eq!(d.current_turn, 0);
    assert_eq!(d.current_phase, GamePhase::P1);
    assert_eq!(d.event, ev);
    assert_eq!(d.players[0].name, "Alice");
    assert_eq!(d.players[0].hand, vec!["", "", "", ""]);
    assert_eq!(d.players[1].hand, vec!["HJ", "HQ", "HK", "HA"]);
    assert!(game_data_for(&s, 3, ev).is_none());
    assert!(game_data_for(&lobby(&[(1, "A")]), 1, ev).is_none());
    assert!(end_game_data(&lobby(&[(1, "A")])).is_none());
    let list = player_list(&s);
    assert_eq!(list.len(), 2);
    assert_eq!(list[1].name, "Bob");
    assert!(list[1].hand.is_empty());
}

#[test]
fn leaving_a_lobby_or_a_game() {
    let mut p = lobby(&[(1, "Alice"), (2, "Bob")]);
    assert_eq!(leave_game(&mut p, 1), DisconnectAction::SaveGame);
    assert_eq!(p.players, vec![(2, "Bob".to_string())]);
    assert_eq!(leave_game(&mut p, 2), DisconnectAction::RemoveGame);
    assert!(p.players.is_empty());
    let mut s = started();
    assert_eq!(leave_game(&mut s, 1), DisconnectAction::AwaitReconnect);
    assert_eq!(s.players.len(), 2);
}

#[test]
fn reconnect_timeouts() {
    let mut s = started();
    match expire_reconnect(&mut s, 1) {
        TimeoutOutcome::AutoWin { winner_name } => assert_eq!(winner_name, Some("Bob".to_string())),
        _ => panic!("expected an automatic win"),
    }
    assert_eq!(s.status, GameStateStatus::Finished);
    assert_eq!(s.game.as_ref().unwrap().players.len(), 1);
    let mut three = lobby(&[(1, "A"), (2, "B"), (3, "C")]);
    three.status = GameStateStatus::InProgress;
    assert!(matches!(expire_reconnect(&mut three, 2), TimeoutOutcome::Abandon));
    assert_eq!(three.status, GameStateStatus::Finished);
    let mut one = lobby(&[(1, "A")]);
    assert!(matches!(expire_reconnect(&mut one, 1), TimeoutOutcome::RemoveGame));
}

#[test]
fn names_and_ids_of_joined_players() {
    let p = lobby(&[(1, "Alice"), (2, "Bob"), (1, "Again")]);
    assert!(has_player_id(&p.players, 2));
    assert!(!has_player_id(&p.players, 3));
    assert!(name_in_use(&p.players, "Bob"));
    assert!(!name_in_use(&p.players, "bob"));
    assert_eq!(lookup_name(&p.players, 1), Some("Alice".to_string()));
    assert_eq!(lookup_name(&p.players, 5), None);
}

#[test]
fn cards_in_requests() {
    assert_eq!(parse_card(&Some("SK".to_string())), Some(card("SK")));
    assert_eq!(parse_card(&Some("S10".to_string())), None);
    assert_eq!(parse_card(&None), None);
}

#[test]
fn short_ids_are_valid_game_ids() {
    for _ in 0..20 {
        let id = generate_short_uuid();
        assert_eq!(id.len(), 8);
        assert!(validate_game_id(&id).is_ok());
    }
}

#[test]
fn id_text_roundtrip() {
    let id = 42u128;
    let c = Claims::issue("g1", id, "Ann", 0);
    assert_eq!(c.player_id, "00000000-0000-0000-0000-00000000002a");
    assert_eq!(check_ws_claims(&c, "g1"), Ok(id));
    let mut bad = Claims::issue("g1", id, "Ann", 0);
    bad.player_id = "xyz".to_string();
    assert_eq!(check_ws_claims(&bad, "g1"), Err((401, "Invalid player id in token")));
}

#[test]
fn settings_defaults() {
    let c = Config::from_settings(None, None, None);
    assert_eq!(c.server_address, "127.0.0.1:3000");
    assert_eq!(c.allowed_origin, "*");
    assert_eq!(c.jwt_secret, "");
    let c = Config::from_settings(Some("0.0.0.0:80".into()), Some("http://x".into()), Some("s".into()));
    assert_eq!(c.server_address, "0.0.0.0:80");
    assert_eq!(c.allowed_origin, "http://x");
    assert_eq!(c.jwt_secret, "s");
}

#[test]
fn creating_a_lobby_purges_spent_games() {
    let mut m: GameManager<u8> = GameManager::new();
    let first = m.create_game();
    assert_eq!(first.status, GameStateStatus::Lobby);
    assert!(first.players.is_empty());
    assert!(validate_game_id(&first.id).is_ok());
    assert_eq!(m.games.len(), 1);
    let mut players = HashMap::new();
    players.insert(5u128, ("E".to_string(), 0u8));
    m.games.push(GameState { id: "live".to_string(), status: GameStateStatus::Finished, game: None, players });
    m.games[0].status = GameStateStatus::Finished;
    let second = m.create_game();
    assert_eq!(m.games.len(), 2);
    assert_eq!(m.games[0].id, "live");
    assert_eq!(m.games[1].id, second.id);
}

#[test]
fn short_ids_are_hex_digits_lowest_first() {
    assert_eq!(short_id_of(0x1234abcd), "dcba4321");
    assert_eq!(short_id_of(0), "00000000");
    assert_eq!(short_id_of(0xffff_0000_0000_0000_0000_0000_9876_5432), "23456789");
    let id = generate_short_uuid();
    assert!(id.chars().all(|c| c.is_ascii_hexdigit() && !c.is_ascii_uppercase()));
}

#[test]
fn joining_appends_the_player() {
    let mut p = lobby(&[(1, "Alice")]);
    join_player(&mut p, 7, "Bob".to_string());
    assert_eq!(p.players, vec![(1, "Alice".to_string()), (7, "Bob".to_string())]);
    assert_eq!(p.status, GameStateStatus::Lobby);
    assert!(p.game.is_none());
    assert_eq!(p.id, "abc123");
}

#[test]
fn stored_status_follows_the_game() {
    // starting leaves the lobby; the closing move finishes the stored game
    let mut s = lobby(&[(1, "Alice"), (2, "Bob")]);
    apply_action(&mut s, 1, GameRequestAction::StartGame, &None);
    assert_eq!(s.status, GameStateStatus::InProgress);
    let mut s = started();
    apply_action(&mut s, 1, GameRequestAction::Draw, &None);
    apply_action(&mut s, 1, GameRequestAction::Discard, &Some("D3".to_string()));
    apply_action(&mut s, 2, GameRequestAction::TakeBin, &None);
    apply_action(&mut s, 2, GameRequestAction::Close, &Some("D3".to_string()));
    assert_eq!(s.game.as_ref().unwrap().phase, GamePhase::GameEnded);
    assert_eq!(s.status, GameStateStatus::Finished);
    // a refused move keeps both as they were
    let out = apply_action(&mut s, 1, GameRequestAction::Draw, &None);
    assert_eq!(out, ActionOutcome::Rejected);
    assert_eq!(s.status, GameStateStatus::Finished);
}

#[test]
fn register_ids_stay_distinct() {
    let mut m: GameManager<u8> = GameManager::new();
    for _ in 0..10 {
        m.create_game();
    }
    assert_eq!(m.games.len(), 10);
    for i in 0..m.games.len() {
        for j in (i + 1)..m.games.len() {
            assert_ne!(m.games[i].id, m.games[j].id);
        }
    }
}
