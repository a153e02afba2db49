use fortyone::client::{
    can_close_with_discard, card_points, compute_score, ClientState, ClientStatus, GameError,
    MessageType, PlayerPanel, PlayerPhase, Prompt, Seat, ServerData, ServerMessage,
};

fn hand(cards: &[&str]) -> Vec<String> {
    cards.iter().map(|c| c.to_string()).collect()
}

#[test]
fn client_card_points() {
    assert_eq!(card_points("HA"), 11);
    assert_eq!(card_points("H2"), 2);
    assert_eq!(card_points("S9"), 9);
    assert_eq!(card_points("HX"), 10);
    assert_eq!(card_points("DK"), 10);
    assert_eq!(card_points("H"), 0);
    assert_eq!(card_points(""), 0);
    assert_eq!(card_points("H10"), 10);
}

#[test]
fn client_scores() {
    assert_eq!(compute_score(&hand(&["HA", "HK", "HQ", "HJ"])), 41);
    assert_eq!(compute_score(&hand(&["HA", "D2", "C3", "S4"])), 2);
    assert_eq!(compute_score(&hand(&["HA", "ZZ", "", "S"])), 11);
    assert_eq!(compute_score(&hand(&[])), 0);
}

#[test]
fn client_close_offer() {
    // the hand left after the discard is scored
    let h1 = hand(&["HA", "HA", "HK", "HQ", "HJ"]);
    assert!(can_close_with_discard(&h1, "HA"));
    let h2 = hand(&["HA", "HK", "HQ", "HJ", "S2"]);
    assert!(can_close_with_discard(&h2, "S2"));
    // without HA: 2 * 30 - 32 = 28
    assert!(!can_close_with_discard(&h2, "HA"));
    // a card not in the hand leaves it whole: 2 * 41 - 43 = 39
    assert!(can_close_with_discard(&h2, "D5"));
    assert!(!can_close_with_discard(&hand(&["HA", "D2", "C3", "S4", "S5"]), "S5"));
}

#[test]
fn client_error_texts() {
    assert_eq!(GameError::CreationFailed("x".into()).message(), "Failed to create game: x");
    assert_eq!(GameError::JoinHttpFailed("y".into()).message(), "Failed to join game: y");
    assert_eq!(GameError::JoinFailed("z".into()).message(), "Failed to connect to game: z");
    assert_eq!(GameError::SendFailed("w".into()).message(), "Failed to send payload: w");
}

fn seat(name: &str, h: &[&str], b: &[&str], score: i16) -> Seat {
    Seat { name: name.to_string(), bin: hand(b), hand: hand(h), score }
}

fn fresh_state() -> ClientState {
    ClientState {
        game_id: Some("abc".to_string()),
        counter: 0,
        game_status: ClientStatus::PreGame,
        players: vec![],
        player_index: 0,
        player_name: String::new(),
        current_turn_index: 0,
        current_turn_phase: PlayerPhase::Waiting,
        winner: None,
    }
}

#[test]
fn client_ignores_failed_messages_at_any_count() {
    let mut st = fresh_state();
    st.counter = u64::MAX;
    let failed = ServerMessage { status: "failed".into(), message_type: MessageType::Reply, data: None };
    assert!(!st.apply_server_message(&failed));
    assert_eq!(st.counter, u64::MAX);
}

#[test]
fn client_records_the_joined_game() {
    let mut st = fresh_state();
    st.game_id = None;
    assert!(st.record_join("g42".to_string()));
    assert_eq!(st.game_id, Some("g42".to_string()));
    assert_eq!(st.counter, 1);
    assert_eq!(st.game_status, ClientStatus::PreGame);
}

#[test]
fn client_follows_server_messages() {
    let mut st = fresh_state();
    let failed = ServerMessage { status: "failed".into(), message_type: MessageType::Reply, data: None };
    assert!(!st.apply_server_message(&failed));
    assert_eq!(st.counter, 0);

    let join = ServerMessage {
        status: "success".into(),
        message_type: MessageType::PlayerJoin,
        data: Some(ServerData {
            players: vec![seat("Alice", &["HA"], &["S2"], 7), seat("Bob", &[], &[], 0)],
            player_pos: None,
            current_turn: None,
            current_phase: None,
            winner_name: None,
        }),
    };
    assert!(st.apply_server_message(&join));
    assert_eq!(st.counter, 1);
    assert_eq!(st.players.len(), 2);
    assert_eq!(st.players[0].name, "Alice");
    assert!(st.players[0].hand.is_empty());
    assert_eq!(st.players[0].score, 0);

    let event = ServerMessage {
        status: "success".into(),
        message_type: MessageType::GameEvent,
        data: Some(ServerData {
            players: vec![seat("Alice", &["", ""], &["S2"], 0), seat("Bob", &["HA", "HK"], &[], 0)],
            player_pos: Some(1),
            current_turn: Some(1),
            current_phase: Some(PlayerPhase::P2),
            winner_name: None,
        }),
    };
    assert!(st.apply_server_message(&event));
    assert_eq!(st.game_status, ClientStatus::InProgress);
    assert_eq!(st.player_index, 1);
    assert_eq!(st.player_name, "Bob");
    assert_eq!(st.current_turn_index, 1);
    assert_eq!(st.current_turn_phase, PlayerPhase::P2);
    assert_eq!(st.players[1].hand, hand(&["HA", "HK"]));
    assert_eq!(st.players[0].bin, hand(&["S2"]));

    let end = ServerMessage {
        status: "success".into(),
        message_type: MessageType::EndGame,
        data: Some(ServerData {
            players: vec![seat("Alice", &["S2"], &["S3"], -2), seat("Bob", &["HA"], &[], 11)],
            player_pos: None,
            current_turn: None,
            current_phase: None,
            winner_name: Some("Bob".into()),
        }),
    };
    assert!(st.apply_server_message(&end));
    assert_eq!(st.game_status, ClientStatus::PostGame);
    assert_eq!(st.winner, Some("Bob".to_string()));
    assert_eq!(st.players[0].score, -2);
    assert!(st.players[0].bin.is_empty());
    assert_eq!(st.counter, 3);

    // after the end, lobby updates no longer replace the final scores
    assert!(st.apply_server_message(&join));
    assert_eq!(st.players[1].score, 11);
}

#[test]
fn player_panel_model() {
    let mut st = fresh_state();
    st.game_status = ClientStatus::InProgress;
    st.players = vec![
        seat("Alice", &["HA", "HK", "HQ", "HJ", "S2"], &["C2", "C3", "C4", "C5", "C6", "C7"], 0),
        seat("Bob", &["", "", "", ""], &[], 0),
    ];
    st.player_index = 0;
    st.player_name = "Alice".into();
    st.current_turn_index = 0;
    st.current_turn_phase = PlayerPhase::P2;
    let mut panel = PlayerPanel::from_state(&st);
    assert!(panel.is_turn);
    assert_eq!(panel.player_phase, PlayerPhase::P2);
    panel.hovered_card = Some("HK".to_string());
    let m = panel.view_model();
    assert_eq!(m.last_five_bin, hand(&["C3", "C4", "C5", "C6", "C7"]));
    assert!(m.is_discard_phase);
    assert!(!m.is_draw_phase);
    assert_eq!(m.prompt, Prompt::Discard);
    assert!(!m.show_take_bin);
    assert_eq!(m.cards.len(), 5);
    // discarding S2 leaves 41, discarding HA leaves 28
    assert!(m.cards[4].closeable);
    assert!(!m.cards[0].closeable);
    assert!(m.cards[1].hovered);
    assert!(!m.cards[0].hovered);

    st.current_turn_index = 1;
    assert!(panel.on_state_changed(&st));
    assert!(!panel.is_turn);
    assert_eq!(panel.player_phase, PlayerPhase::Waiting);
    assert!(panel.hovered_card.is_none());
    let m = panel.view_model();
    assert_eq!(m.prompt, Prompt::Waiting);
    assert!(m.cards.iter().all(|c| !c.closeable));

    st.game_status = ClientStatus::PostGame;
    assert!(!panel.on_state_changed(&st));

    st.game_status = ClientStatus::InProgress;
    st.current_turn_index = 0;
    st.current_turn_phase = PlayerPhase::P1;
    assert!(panel.on_state_changed(&st));
    let m = panel.view_model();
    assert_eq!(m.prompt, Prompt::Draw);
    assert!(m.show_take_bin);
}
