use fortyone::card::{Card, Rank, Suit};
use fortyone::game::{EngineError, Game, GamePhase, GameStatus, Player, MAX_PLAYER, MINIMUM_CLOSE_SCORE};
use uuid::Uuid;

fn new_id() -> u128 {
    Uuid::new_v4().as_u128()
}

fn make_game(n: usize) -> Game {
    let ids: Vec<u128> = (0..n).map(|_| new_id()).collect();
    Game::new(ids).expect("Failed to create game")
}

#[test]
fn test_card_roundtrip() {
    let card = Card::from_string("H2").expect("Unable to parse card");
    assert_eq!(card.to_string(), "H2");
    assert_eq!(card.points(), 2);
}

#[test]
fn test_card_parse_invalid() {
    assert!(Card::from_string("ZZ").is_none());
    assert!(Card::from_string("H").is_none());
    assert!(Card::from_string("").is_none());
    assert!(Card::from_string("H22").is_none());
}

#[test]
fn test_card_parse_all_suits() {
    assert!(Card::from_string("HA").is_some());
    assert!(Card::from_string("DA").is_some());
    assert!(Card::from_string("CA").is_some());
    assert!(Card::from_string("SA").is_some());
}

#[test]
fn test_game_flow() {
    let player1_id = new_id();
    let player2_id = new_id();
    let mut game = Game::new(vec![player1_id, player2_id]).unwrap();
    let mut i = 0;
    loop {
        let current_player = game.current_player().unwrap().clone();
        let res = if i % 2 == 1 && !current_player.bin.is_empty() {
            game.take_bin(&current_player.id)
        } else {
            game.draw(&current_player.id)
        };
        res.expect("Error drawing");

        let current_player = game.current_player().unwrap().clone();
        let card_to_discard = current_player.hand[3].clone();
        let res = game.discard(&current_player.id, card_to_discard).expect("Error discarding");

        if res.status == Some(GameStatus::Ended) {
            break;
        }
        i += 1;
    }
}

#[test]
fn test_game_step() {
    let player1_id = new_id();
    let player2_id = new_id();
    let mut game = Game::new(vec![player1_id, player2_id]).unwrap();

    let current_player = game.current_player().unwrap().clone();
    game.draw(&current_player.id).unwrap();
    let card_to_discard = current_player.hand[3].clone();
    game.discard(&current_player.id, card_to_discard).expect("Error discarding");

    let next_player = game.current_player().unwrap();
    assert_eq!(next_player.hand.len(), 4);
}

#[test]
fn test_draw_wrong_phase_fails() {
    let mut game = make_game(2);
    let player = game.current_player().unwrap().clone();
    game.draw(&player.id).unwrap();
    let err = game.draw(&player.id);
    assert!(err.is_err());
}

#[test]
fn test_discard_wrong_phase_fails() {
    let mut game = make_game(2);
    let player = game.current_player().unwrap().clone();
    let card = player.hand[0].clone();
    let err = game.discard(&player.id, card);
    assert!(err.is_err());
}

#[test]
fn test_close_below_minimum_score_fails() {
    let mut game = make_game(2);
    let player = game.current_player().unwrap().clone();
    game.draw(&player.id).unwrap();
    let player = game.current_player().unwrap().clone();
    if player.score() < MINIMUM_CLOSE_SCORE {
        let card = player.hand[0].clone();
        let err = game.close(&player.id, card);
        assert!(err.is_err(), "close should fail when score < minimum");
    }
}

#[test]
fn test_max_players_enforced() {
    let ids: Vec<u128> = (0..MAX_PLAYER + 1).map(|_| new_id()).collect();
    let four_ids: Vec<u128> = ids[..MAX_PLAYER].to_vec();
    let game = Game::new(four_ids);
    assert!(game.is_ok());
}

#[test]
fn test_score_all_hearts() {
    let player = Player {
        id: new_id(),
        hand: vec![
            Card { suit: Suit::Hearts, rank: Rank::Ace },
            Card { suit: Suit::Hearts, rank: Rank::King },
            Card { suit: Suit::Hearts, rank: Rank::Queen },
            Card { suit: Suit::Hearts, rank: Rank::Jack },
        ],
        bin: vec![],
    };
    assert_eq!(player.score(), 41);
}

#[test]
fn test_score_mixed_hand() {
    let player = Player {
        id: new_id(),
        hand: vec![
            Card { suit: Suit::Hearts, rank: Rank::Ace },
            Card { suit: Suit::Diamonds, rank: Rank::Two },
            Card { suit: Suit::Clubs, rank: Rank::Three },
            Card { suit: Suit::Spades, rank: Rank::Four },
        ],
        bin: vec![],
    };
    assert_eq!(player.score(), 2);
}

#[test]
fn test_wrong_player_turn_fails() {
    let p1 = new_id();
    let p2 = new_id();
    let mut game = Game::new(vec![p1, p2]).unwrap();
    let err = game.draw(&p2);
    assert!(err.is_err());
}

#[test]
fn test_take_bin_empty_fails() {
    let mut game = make_game(2);
    let player = game.current_player().unwrap().clone();
    let err = game.take_bin(&player.id);
    assert!(err.is_err());
}

#[test]
fn test_early_close() {
    let player1_id = new_id();
    let player2_id = new_id();
    let mut game = Game::new(vec![player1_id, player2_id]).unwrap();
    let collect_card_ranks = [Rank::Ace, Rank::King, Rank::Jack, Rank::Queen, Rank::Ten];

    let current_player = game.current_player().unwrap().clone();
    if current_player.id == player1_id
        && current_player
            .bin
            .last()
            .map_or(false, |card| collect_card_ranks.contains(&card.rank))
    {
        game.take_bin(&current_player.id).expect("Error when taking bin");
    } else {
        game.draw(&current_player.id).expect("Error when drawing player");
    }
    let current_player = game.current_player().unwrap().clone();
    assert_eq!(current_player.hand.len(), 5);

    let card_to_discard = current_player.hand[3].clone();
    let res = game.close(&current_player.id, card_to_discard.clone());

    if current_player.score() < MINIMUM_CLOSE_SCORE {
        assert!(res.is_err(), "Expected Error on early close");
    } else if res.is_ok() {
        return;
    }

    let current_player = game.current_player().unwrap().clone();
    assert_eq!(current_player.hand.len(), 5);

    let res = game.discard(&current_player.id, card_to_discard);
    assert!(res.is_ok(), "Expected Ok for discard");
    let current_player = game.current_player().unwrap().clone();
    assert_eq!(current_player.hand.len(), 4);

    let card_to_discard = current_player.hand[1].clone();
    let res = game.discard(&current_player.id, card_to_discard);
    assert!(res.is_err(), "Expected Err since turn changed");
}

#[test]
fn test_close_with_enough_score() {
    let player1_id = new_id();
    let player2_id = new_id();
    let mut game = Game::new(vec![player1_id, player2_id]).unwrap();
    let collect_card_ranks = [Rank::Ace, Rank::King, Rank::Jack, Rank::Queen, Rank::Ten];
    let calculate_n_points = |card: &Card| -> i16 {
        let p = card.points() as i16;
        if card.suit != Suit::Hearts { -p } else { p }
    };

    loop {
        if game.phase == GamePhase::GameEnded {
            break;
        }
        let current_player = game.current_player().unwrap().clone();
        if current_player.id == player1_id
            && current_player
                .bin
                .last()
                .map_or(false, |card| collect_card_ranks.contains(&card.rank))
        {
            game.take_bin(&current_player.id).expect("take_bin failed");
        } else {
            game.draw(&current_player.id).expect("draw failed");
        }

        let current_player = game.current_player().unwrap().clone();
        let mut card_to_discard = current_player.hand[0].clone();
        for card in &current_player.hand {
            if calculate_n_points(&card_to_discard) < calculate_n_points(card) {
                card_to_discard = card.clone();
            }
        }

        if current_player.score() >= MINIMUM_CLOSE_SCORE {
            let res = game.close(&current_player.id, card_to_discard);
            assert!(res.is_ok(), "Expected Ok on close with sufficient score");
            return;
        } else {
            game.discard(&current_player.id, card_to_discard).expect("discard failed");
        }
    }
}

// ---------------------------------------------------------------------------
// Further checks of the engine
// ---------------------------------------------------------------------------

fn card(s: &str) -> Card {
    Card::from_string(s).unwrap()
}

fn fixed_game() -> (Game, u128, u128) {
    let a = 1u128;
    let b = 2u128;
    let deck: Vec<Card> = ["SK", "D3", "HA", "HK", "HQ", "HJ", "C2", "C3", "C4", "C5"]
        .iter()
        .map(|s| card(s))
        .collect();
    let game = Game::deal(7, vec![a, b], deck).unwrap();
    (game, a, b)
}

#[test]
fn deal_pops_from_the_end_of_the_deck() {
    let (game, a, b) = fixed_game();
    assert_eq!(game.id, 7);
    assert_eq!(game.players[0].id, a);
    assert_eq!(game.players[1].id, b);
    let h0: Vec<String> = game.players[0].hand.iter().map(|c| c.to_string()).collect();
    let h1: Vec<String> = game.players[1].hand.iter().map(|c| c.to_string()).collect();
    assert_eq!(h0, vec!["C5", "C4", "C3", "C2"]);
    assert_eq!(h1, vec!["HJ", "HQ", "HK", "HA"]);
    assert_eq!(game.deck, vec![card("SK"), card("D3")]);
    assert_eq!(game.current_turn, 0);
    assert_eq!(game.phase, GamePhase::P1);
}

#[test]
fn deal_refuses_when_cards_run_out() {
    let deck: Vec<Card> = ["SK", "D3", "HA"].iter().map(|s| card(s)).collect();
    assert!(matches!(Game::deal(1, vec![1], deck), Err(EngineError::InsufficientDeck)));
    let many: Vec<u128> = (0..14).collect();
    assert!(matches!(Game::new(many), Err(EngineError::InsufficientDeck)));
    let thirteen: Vec<u128> = (0..13).collect();
    let g = Game::new(thirteen).unwrap();
    assert_eq!(g.deck.len(), 0);
}

#[test]
fn fresh_game_holds_every_card_once() {
    let game = make_game(3);
    let mut all: Vec<String> = game.deck.iter().map(|c| c.to_string()).collect();
    for p in &game.players {
        assert_eq!(p.hand.len(), 4);
        assert!(p.bin.is_empty());
        all.extend(p.hand.iter().map(|c| c.to_string()));
    }
    all.sort();
    all.dedup();
    assert_eq!(all.len(), 52);
    assert_eq!(game.card_left(), 40);
}

#[test]
fn draw_takes_the_top_card() {
    let (mut game, a, _) = fixed_game();
    game.draw(&a).unwrap();
    assert_eq!(game.players[0].hand.last(), Some(&card("D3")));
    assert_eq!(game.deck, vec![card("SK")]);
    assert_eq!(game.phase, GamePhase::P2);
}

#[test]
fn discard_feeds_the_next_bin_and_passes_the_turn() {
    let (mut game, a, b) = fixed_game();
    game.draw(&a).unwrap();
    let res = game.discard(&a, card("C4")).unwrap();
    assert_eq!(res.next_turn, 1);
    assert_eq!(res.status, Some(GameStatus::InProgress));
    assert!(res.winner.is_none());
    assert_eq!(game.players[1].bin, vec![card("C4")]);
    assert_eq!(game.players[0].hand, vec![card("C5"), card("C3"), card("C2"), card("D3")]);
    assert_eq!(game.current_turn, 1);
    assert_eq!(game.phase, GamePhase::P1);
    // the next player may take the discarded card from their bin
    game.take_bin(&b).unwrap();
    assert_eq!(game.players[1].hand.last(), Some(&card("C4")));
    assert!(game.players[1].bin.is_empty());
}

#[test]
fn discard_of_missing_card_is_refused() {
    let (mut game, a, _) = fixed_game();
    game.draw(&a).unwrap();
    let before = game.players[0].hand.clone();
    assert!(matches!(game.discard(&a, card("HA")), Err(EngineError::CardNotFound)));
    assert_eq!(game.players[0].hand, before);
    assert_eq!(game.phase, GamePhase::P2);
}

#[test]
fn draw_from_empty_deck_is_refused() {
    let deck: Vec<Card> = ["HA", "HK", "HQ", "HJ"].iter().map(|s| card(s)).collect();
    let mut game = Game::deal(1, vec![5], deck).unwrap();
    assert!(matches!(game.draw(&5), Err(EngineError::InvalidMove)));
}

#[test]
fn close_with_high_score_ends_the_game() {
    // player b takes D3 from the bin: with the four top hearts the hand
    // scores 2 * 41 - 44 = 38
    let (mut game, a, b) = fixed_game();
    game.draw(&a).unwrap();
    game.discard(&a, card("D3")).unwrap();
    game.take_bin(&b).unwrap();
    assert_eq!(game.players[1].score(), 38);
    let res = game.close(&b, card("D3")).unwrap();
    assert_eq!(res.status, Some(GameStatus::Ended));
    assert_eq!(res.next_turn, 0);
    assert_eq!(game.phase, GamePhase::GameEnded);
    let w = res.winner.expect("winner");
    assert_eq!(w.id, b);
    assert_eq!(game.scores(), vec![2 * 14 - 14, 41]);
    assert_eq!(game.score(&b), Ok(41));
    assert_eq!(game.score(&99), Err(EngineError::InvalidPlayer));
}

#[test]
fn close_is_scored_on_the_whole_hand() {
    // HA HK HQ HJ SK scores 2 * 41 - 51 = 31: closing with SK is refused
    // although the hand left would score 41
    let (mut game, a, b) = fixed_game();
    game.draw(&a).unwrap();
    game.discard(&a, card("D3")).unwrap();
    game.draw(&b).unwrap();
    assert_eq!(game.players[1].score(), 31);
    assert!(matches!(game.close(&b, card("SK")), Err(EngineError::InvalidMove)));
    assert_eq!(game.players[1].hand.len(), 5);
    assert_eq!(game.phase, GamePhase::P2);
    // HA HK HQ HJ H2 scores 2 * 43 - 43 = 43: closing with HA is accepted
    // although the hand left would score 32
    let hearts: Vec<Card> = ["S3", "H2", "HA", "HK", "HQ", "HJ", "C2", "C3", "C4", "C5"]
        .iter()
        .map(|s| card(s))
        .collect();
    let mut game = Game::deal(8, vec![a, b], hearts).unwrap();
    game.draw(&a).unwrap();
    game.discard(&a, card("H2")).unwrap();
    game.take_bin(&b).unwrap();
    assert_eq!(game.players[1].score(), 43);
    assert!(game.close(&b, card("HA")).is_ok());
    assert_eq!(game.phase, GamePhase::GameEnded);
}

#[test]
fn refused_close_moves_the_card_to_the_end() {
    let (mut game, a, _) = fixed_game();
    game.draw(&a).unwrap();
    // C5 C4 C3 C2 D3 scores 2 * 14 - 17 = 11, below the minimum
    assert!(matches!(game.close(&a, card("C5")), Err(EngineError::InvalidMove)));
    assert_eq!(game.players[0].hand, vec![card("C4"), card("C3"), card("C2"), card("D3"), card("C5")]);
    assert_eq!(game.phase, GamePhase::P2);
    assert_eq!(game.current_turn, 0);
    assert!(matches!(game.close(&a, card("HA")), Err(EngineError::CardNotFound)));
}

#[test]
fn winner_needs_a_strict_positive_lead() {
    let mut game = make_game(2);
    game.phase = GamePhase::GameEnded;
    game.players[0].hand = vec![card("HA"), card("HK")];
    game.players[1].hand = vec![card("SA"), card("SK")];
    assert!(game.winner().is_none());
    game.players[1].hand = vec![card("SA"), card("S2")];
    assert_eq!(game.winner().unwrap().id, game.players[0].id);
    game.players[0].hand = vec![card("HA"), card("SK")];
    game.players[1].hand = vec![card("DA"), card("SK")];
    assert!(game.winner().is_none());
    game.phase = GamePhase::P1;
    game.players[0].hand = vec![card("HA")];
    assert!(game.winner().is_none());
}

#[test]
fn removing_the_current_player_discards_and_wraps() {
    let (mut game, a, b) = fixed_game();
    game.draw(&a).unwrap();
    game.remove_player(&a).unwrap();
    assert_eq!(game.players.len(), 1);
    assert_eq!(game.players[0].id, b);
    // a discarded the first card of their hand (C5) to b's bin
    assert_eq!(game.players[0].bin, vec![card("C5")]);
    assert_eq!(game.current_turn, 0);
    assert_eq!(game.phase, GamePhase::P1);
    assert_eq!(game.player_pos(&b), Some(0));
    assert_eq!(game.player_pos(&a), None);
    game.remove_player(&42).unwrap();
    assert_eq!(game.players.len(), 1);
}

#[test]
fn rounds_that_draw_end_the_game_when_the_deck_runs_out() {
    // two players, every round draws and discards the drawn card: the
    // deck of 44 is spent after 44 rounds, and that round ends the game
    let mut game = make_game(2);
    let mut rounds = 0;
    while game.phase != GamePhase::GameEnded {
        let id = game.players[game.current_turn].id;
        game.draw(&id).unwrap();
        let top = *game.players[game.current_turn].hand.last().unwrap();
        let res = game.discard(&id, top).unwrap();
        rounds += 1;
        assert_eq!(game.deck.len(), 44 - rounds);
        assert_eq!(res.status == Some(GameStatus::Ended), game.deck.is_empty());
    }
    assert_eq!(rounds, 44);
}

#[test]
fn leaving_keeps_others_in_order() {
    let mut game = make_game(3);
    let ids: Vec<u128> = game.players.iter().map(|p| p.id).collect();
    let hands: Vec<Vec<Card>> = game.players.iter().map(|p| p.hand.clone()).collect();
    game.remove_player(&ids[1]).unwrap();
    assert_eq!(game.players.len(), 2);
    assert_eq!(game.players[0].id, ids[0]);
    assert_eq!(game.players[1].id, ids[2]);
    assert_eq!(game.players[1].hand, hands[2]);
    assert!(game.current_turn < game.players.len());
    let before_len = game.players.len();
    game.remove_player(&12345).unwrap();
    assert_eq!(game.players.len(), before_len);
}
