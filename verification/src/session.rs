//! The server's side of a game session: checking requests, applying a
//! player's action to the stored game, and what players are shown.

use vstd::prelude::*;
use crate::auth::Claims;
use crate::card::{Card, card_text, parse_card_text};
use crate::error::{AppError, STATUS_BAD_REQUEST, STATUS_UNAUTHORIZED, STATUS_NOT_FOUND};
use crate::ids::{is_ascii_alnum, parse_uuid, uuid_from_text, valid_game_id};
use crate::text::{byte_len, trim_text, trimmed, same_text};
use crate::game::{
    Game, GamePhase, GameView, MAX_PLAYER, after_close, after_discard, after_draw,
    after_refused_close, after_remove_player, after_take_bin, close_outcome, close_requires,
    discard_outcome, discard_requires, draw_outcome, game_winner, hand_score, is_fresh_game,
    next_seat, on_turn, remove_player_requires, scores_in_range, seat_of, take_bin_outcome,
    valid_turn,
};

verus! {

/// Where a stored game is in its life.
#[derive(Clone, Copy, Debug, PartialEq, Eq, Structural)]
pub enum GameStateStatus {
    Lobby,
    InProgress,
    Finished,
}

/// A game as stored: its id, its status, the engine's game once started,
/// and the players who joined, as (id, name) in joining order.
pub struct PersistedGameState {
    pub id: String,
    pub status: GameStateStatus,
    pub game: Option<Game>,
    pub players: Vec<(u128, String)>,
}

/// A stored game as a mathematical value.
pub ghost struct SessionView {
    pub id: Seq<char>,
    pub status: GameStateStatus,
    pub game: Option<GameView>,
    pub players: Seq<(u128, Seq<char>)>,
}

pub open spec fn entries_view(ps: Seq<(u128, String)>) -> Seq<(u128, Seq<char>)> {
    ps.map_values(|e: (u128, String)| (e.0, e.1@))
}

pub open spec fn game_view_of(g: Option<Game>) -> Option<GameView> {
    match g {
        Some(g) => Some(g@),
        None => None,
    }
}

impl View for PersistedGameState {
    type V = SessionView;

    open spec fn view(&self) -> SessionView {
        SessionView {
            id: self.id@,
            status: self.status,
            game: game_view_of(self.game),
            players: entries_view(self.players@),
        }
    }
}

/// The ids of the joined players, in joining order.
pub open spec fn player_ids(ps: Seq<(u128, Seq<char>)>) -> Seq<u128> {
    ps.map_values(|e: (u128, Seq<char>)| e.0)
}

/// What a player asks for over the game connection.
#[derive(Clone, Copy, Debug, PartialEq, Eq, Structural)]
pub enum GameRequestAction {
    StartGame,
    Draw,
    TakeBin,
    Discard,
    Close,
}

/// What happened in a game, as broadcast to the players.
#[derive(Clone, Copy, Debug, PartialEq, Eq, Structural)]
pub enum GameEventType {
    GameStart,
    Reconnect,
    Draw,
    TakeBin,
    Discard,
    Close,
}

/// An event with the seats it went from and to.
#[derive(Clone, Copy, Debug, PartialEq, Eq, Structural)]
pub struct GameEvent {
    pub event_type: GameEventType,
    pub from: Option<u8>,
    pub to: Option<u8>,
}

/// What applying an action comes to: refused (the player is told it
/// failed and nothing is stored), or applied (the event is broadcast, the
/// final scores too when the game is over, and the game is stored).
#[derive(Clone, Copy, Debug, PartialEq, Eq, Structural)]
pub enum ActionOutcome {
    Rejected,
    Applied { event: GameEvent, game_over: bool },
}

/// The card a request names, if it names one.
pub open spec fn requested_card(card: Option<Seq<char>>) -> Option<Card> {
    match card {
        Some(t) => parse_card_text(t),
        None => None,
    }
}

pub open spec fn opt_text(o: Option<String>) -> Option<Seq<char>> {
    match o {
        Some(s) => Some(s@),
        None => None,
    }
}

pub open spec fn event(t: GameEventType, from: Option<u8>, to: Option<u8>) -> GameEvent {
    GameEvent { event_type: t, from, to }
}

/// A move by the player at seat `pos`: the game after it and the outcome.
/// A refused move leaves the game unchanged, except that a close refused
/// for its score puts the card back at the end of the hand.
pub open spec fn move_effect(
    g: GameView,
    player: u128,
    pos: int,
    action: GameRequestAction,
    card: Option<Card>,
) -> (GameView, ActionOutcome) {
    match action {
        GameRequestAction::Draw => if draw_outcome(g, player) is Ok {
            (
                after_draw(g),
                ActionOutcome::Applied {
                    event: event(GameEventType::Draw, None, Some(pos as u8)),
                    game_over: false,
                },
            )
        } else {
            (g, ActionOutcome::Rejected)
        },
        GameRequestAction::TakeBin => if take_bin_outcome(g, player) is Ok {
            (
                after_take_bin(g),
                ActionOutcome::Applied {
                    event: event(GameEventType::TakeBin, Some(pos as u8), Some(pos as u8)),
                    game_over: false,
                },
            )
        } else {
            (g, ActionOutcome::Rejected)
        },
        GameRequestAction::Discard => match card {
            None => (g, ActionOutcome::Rejected),
            Some(c) => if discard_outcome(g, player, c) is Ok {
                let h = after_discard(g, c);
                if h.phase == GamePhase::GameEnded {
                    (
                        h,
                        ActionOutcome::Applied {
                            event: event(
                                GameEventType::Close,
                                Some(pos as u8),
                                Some(next_seat(g) as u8),
                            ),
                            game_over: true,
                        },
                    )
                } else {
                    (
                        h,
                        ActionOutcome::Applied {
                            event: event(
                                GameEventType::Discard,
                                Some(pos as u8),
                                Some(next_seat(g) as u8),
                            ),
                            game_over: false,
                        },
                    )
                }
            } else {
                (g, ActionOutcome::Rejected)
            },
        },
        GameRequestAction::Close => match card {
            None => (g, ActionOutcome::Rejected),
            Some(c) => if close_outcome(g, player, c) is Ok {
                (
                    after_close(g, c),
                    ActionOutcome::Applied {
                        event: event(
                            GameEventType::Close,
                            Some(pos as u8),
                            Some(next_seat(g) as u8),
                        ),
                        game_over: true,
                    },
                )
            } else if on_turn(g, player, GamePhase::P2) && g.players[g.current_turn].hand.contains(
                c,
            ) {
                (after_refused_close(g, c), ActionOutcome::Rejected)
            } else {
                (g, ActionOutcome::Rejected)
            },
        },
        GameRequestAction::StartGame => (g, ActionOutcome::Rejected),
    }
}

/// A stored game whose status agrees with its game: an ended game is
/// finished, and a started game is out of the lobby.
pub open spec fn session_consistent(s: SessionView) -> bool {
    &&& (s.game matches Some(g) && g.phase == GamePhase::GameEnded) ==> s.status
        == GameStateStatus::Finished
    &&& s.game is Some ==> s.status != GameStateStatus::Lobby
}

/// The stored game after a move by the player at seat `pos`.
pub open spec fn session_after_move(
    s: SessionView,
    player: u128,
    pos: int,
    action: GameRequestAction,
    card: Option<Card>,
) -> SessionView {
    let (g2, out) = move_effect(s.game->0, player, pos, action, card);
    SessionView {
        id: s.id,
        status: if out matches ActionOutcome::Applied { game_over, .. } && game_over {
            GameStateStatus::Finished
        } else {
            s.status
        },
        game: Some(g2),
        players: s.players,
    }
}

/// A move, applied or refused, keeps a stored game's status in agreement
/// with its game.
pub proof fn lemma_moves_keep_session_consistent(
    s: SessionView,
    player: u128,
    pos: int,
    action: GameRequestAction,
    card: Option<Card>,
)
    requires
        session_consistent(s),
        s.game is Some,
    ensures
        session_consistent(session_after_move(s, player, pos, action, card)),
{
}

/// What applying an action needs so that the engine does not index past
/// the players or overflow a score.
pub open spec fn action_requires(
    s: SessionView,
    player: u128,
    action: GameRequestAction,
    card: Option<Seq<char>>,
) -> bool {
    match s.game {
        Some(g) => (action != GameRequestAction::StartGame && seat_of(g.players, player) is Some)
            ==> {
            &&& valid_turn(g)
            &&& (action == GameRequestAction::Discard && requested_card(card) is Some)
                ==> discard_requires(g, player, requested_card(card)->0)
            &&& (action == GameRequestAction::Close && requested_card(card) is Some)
                ==> close_requires(g, player, requested_card(card)->0)
        },
        None => true,
    }
}

/// Reads the card a request names; `None` when it names none or no card.
pub fn parse_card(card_str: &Option<String>) -> (r: Option<Card>)
    ensures
        r == requested_card(opt_text(*card_str)),
{
    match card_str {
        Some(s) => Card::from_string(s.as_str()),
        None => None,
    }
}

/// Applies a player's action to a stored game.
pub fn apply_action(
    persisted: &mut PersistedGameState,
    player_id: u128,
    action: GameRequestAction,
    card: &Option<String>,
) -> (r: ActionOutcome)
    requires
        action_requires(old(persisted)@, player_id, action, opt_text(*card)),
    ensures
        ({
            let s = old(persisted)@;
            let f = final(persisted)@;
            if action == GameRequestAction::StartGame {
                if s.game is None && 4 * s.players.len() <= 52 {
                    &&& r == ActionOutcome::Applied {
                        event: event(GameEventType::GameStart, None, None),
                        game_over: false,
                    }
                    &&& f.id == s.id
                    &&& f.players == s.players
                    &&& f.status == GameStateStatus::InProgress
                    &&& f.game is Some
                    &&& is_fresh_game(f.game->0, player_ids(s.players))
                } else {
                    r == ActionOutcome::Rejected && f == s
                }
            } else {
                match s.game {
                    None => r == ActionOutcome::Rejected && f == s,
                    Some(g) => match seat_of(g.players, player_id) {
                        None => r == ActionOutcome::Rejected && f == s,
                        Some(pos) => {
                            &&& r == move_effect(
                                g,
                                player_id,
                                pos,
                                action,
                                requested_card(opt_text(*card)),
                            ).1
                            &&& f == session_after_move(
                                s,
                                player_id,
                                pos,
                                action,
                                requested_card(opt_text(*card)),
                            )
                        },
                    },
                }
            }
        }),
        session_consistent(old(persisted)@) ==> session_consistent(final(persisted)@),
{
    if action == GameRequestAction::StartGame {
        if persisted.game.is_none() {
            let mut ids: Vec<u128> = Vec::new();
            let n = persisted.players.len();
            for i in 0..n
                invariant
                    n == persisted.players@.len(),
                    ids@ =~= player_ids(entries_view(persisted.players@)).take(i as int),
            {
                ids.push(persisted.players[i].0);
                assert(ids@ =~= player_ids(entries_view(persisted.players@)).take(i + 1));
            }
            assert(ids@ =~= player_ids(old(persisted)@.players));
            match Game::new(ids) {
                Ok(game) => {
                    persisted.game = Some(game);
                    persisted.status = GameStateStatus::InProgress;
                    return ActionOutcome::Applied {
                        event: GameEvent {
                            event_type: GameEventType::GameStart,
                            from: None,
                            to: None,
                        },
                        game_over: false,
                    };
                },
                Err(_) => {
                    return ActionOutcome::Rejected;
                },
            }
        } else {
            return ActionOutcome::Rejected;
        }
    }
    let card_parsed = match action {
        GameRequestAction::Discard | GameRequestAction::Close => parse_card(card),
        _ => None,
    };
    let ghost s = persisted@;
    match &mut persisted.game {
        None => ActionOutcome::Rejected,
        Some(game) => {
            let player_pos = match game.player_pos(&player_id) {
                Some(p) => #[verifier::truncate] (p as u8),
                None => {
                    return ActionOutcome::Rejected;
                },
            };
            assert(game@.players.len() == game.players@.len());
            assert(s.game == Some(game@));
            assert(seat_of(game@.players, player_id) is Some);
            assert(action != GameRequestAction::StartGame);
            assert(valid_turn(game@));
            match action {
                GameRequestAction::Draw => match game.draw(&player_id) {
                    Ok(_) => ActionOutcome::Applied {
                        event: GameEvent {
                            event_type: GameEventType::Draw,
                            from: None,
                            to: Some(player_pos),
                        },
                        game_over: false,
                    },
                    Err(_) => ActionOutcome::Rejected,
                },
                GameRequestAction::TakeBin => match game.take_bin(&player_id) {
                    Ok(_) => ActionOutcome::Applied {
                        event: GameEvent {
                            event_type: GameEventType::TakeBin,
                            from: Some(player_pos),
                            to: Some(player_pos),
                        },
                        game_over: false,
                    },
                    Err(_) => ActionOutcome::Rejected,
                },
                GameRequestAction::Discard => {
                    let card = match card_parsed {
                        Some(c) => c,
                        None => {
                            return ActionOutcome::Rejected;
                        },
                    };
                    assert(game@.current_turn == game.current_turn as int);
                    assert(game.current_turn < game.players.len());
                    let next_turn = (game.current_turn + 1) % game.players.len();
                    match game.discard(&player_id, card) {
                        Ok(res) => {
                            if game.phase == GamePhase::GameEnded {
                                persisted.status = GameStateStatus::Finished;
                                ActionOutcome::Applied {
                                    event: GameEvent {
                                        event_type: GameEventType::Close,
                                        from: Some(player_pos),
                                        to: Some(#[verifier::truncate] (next_turn as u8)),
                                    },
                                    game_over: true,
                                }
                            } else {
                                ActionOutcome::Applied {
                                    event: GameEvent {
                                        event_type: GameEventType::Discard,
                                        from: Some(player_pos),
                                        to: Some(res.next_turn),
                                    },
                                    game_over: false,
                                }
                            }
                        },
                        Err(_) => ActionOutcome::Rejected,
                    }
                },
                GameRequestAction::Close => {
                    let card = match card_parsed {
                        Some(c) => c,
                        None => {
                            return ActionOutcome::Rejected;
                        },
                    };
                    assert(game@.current_turn == game.current_turn as int);
                    assert(game.current_turn < game.players.len());
                    let next_turn = (game.current_turn + 1) % game.players.len();
                    match game.close(&player_id, card) {
                        Ok(_) => {
                            persisted.status = GameStateStatus::Finished;
                            ActionOutcome::Applied {
                                event: GameEvent {
                                    event_type: GameEventType::Close,
                                    from: Some(player_pos),
                                    to: Some(#[verifier::truncate] (next_turn as u8)),
                                },
                                game_over: true,
                            }
                        },
                        Err(_) => ActionOutcome::Rejected,
                    }
                },
                GameRequestAction::StartGame => ActionOutcome::Rejected,
            }
        },
    }
}

// ---------------------------------------------------------------------------
// Requests and their checks
// ---------------------------------------------------------------------------

/// Answer to a request for a new game.
pub struct CreateGameResponse {
    pub game_id: String,
}

/// Answer to a request to join a game.
pub struct JoinGameResponse {
    pub player_id: String,
    pub token: String,
}

/// Parameters of a request to join a game.
pub struct JoinParams {
    pub player_name: Option<String>,
}

/// Parameters of a request to open a game connection.
pub struct WsParams {
    pub token: String,
}

/// The error is bad input with exactly this message.
pub open spec fn is_invalid_input(e: AppError, m: Seq<char>) -> bool {
    e matches AppError::InvalidInput(t) && t@ == m
}

/// Checks the form of a game id: one to twelve bytes, all ASCII letters
/// or digits.
pub fn validate_game_id(game_id: &str) -> (r: Result<(), AppError>)
    ensures
        r is Ok <==> valid_game_id(game_id@),
        r matches Err(e) ==> is_invalid_input(e, "Invalid game ID format"@),
{
    if game_id.is_empty() || byte_len(game_id) > 12 {
        return Err(AppError::InvalidInput(String::from_str("Invalid game ID format")));
    }
    let n = game_id.unicode_len();
    for i in 0..n
        invariant
            n == game_id@.len(),
            forall|k: int| 0 <= k < i ==> #[trigger] is_ascii_alnum(game_id@[k]),
    {
        let c = game_id.get_char(i);
        if !(('0' <= c && c <= '9') || ('a' <= c && c <= 'z') || ('A' <= c && c <= 'Z')) {
            assert(!is_ascii_alnum(game_id@[i as int]));
            return Err(AppError::InvalidInput(String::from_str("Invalid game ID format")));
        }
    }
    Ok(())
}

/// The joined player with this id, if any.
pub open spec fn has_player(ps: Seq<(u128, Seq<char>)>, id: u128) -> bool {
    exists|i: int| 0 <= i < ps.len() && #[trigger] ps[i].0 == id
}

/// A joined player goes by this name.
pub open spec fn name_taken(ps: Seq<(u128, Seq<char>)>, name: Seq<char>) -> bool {
    exists|i: int| 0 <= i < ps.len() && #[trigger] ps[i].1 == name
}

/// `i` is the first entry with this id.
pub open spec fn is_first_entry(ps: Seq<(u128, Seq<char>)>, id: u128, i: int) -> bool {
    &&& 0 <= i < ps.len()
    &&& ps[i].0 == id
    &&& forall|j: int| 0 <= j < i ==> #[trigger] ps[j].0 != id
}

/// The name of the first joined player with this id, if any.
pub open spec fn find_name(ps: Seq<(u128, Seq<char>)>, id: u128) -> Option<Seq<char>> {
    if exists|i: int| is_first_entry(ps, id, i) {
        Some(ps[choose|i: int| is_first_entry(ps, id, i)].1)
    } else {
        None
    }
}

/// The name of the player with this id, or the empty name.
pub open spec fn name_or_empty(ps: Seq<(u128, Seq<char>)>, id: u128) -> Seq<char> {
    match find_name(ps, id) {
        Some(n) => n,
        None => Seq::empty(),
    }
}

/// The joined players without the one with this id.
pub open spec fn without_player(ps: Seq<(u128, Seq<char>)>, id: u128) -> Seq<(u128, Seq<char>)>
    decreases ps.len(),
{
    if ps.len() == 0 {
        ps
    } else if ps.last().0 == id {
        without_player(ps.drop_last(), id)
    } else {
        without_player(ps.drop_last(), id).push(ps.last())
    }
}

/// Whether a player with this id has joined.
pub fn has_player_id(players: &Vec<(u128, String)>, id: u128) -> (r: bool)
    ensures
        r == has_player(entries_view(players@), id),
{
    let ghost ps = entries_view(players@);
    let n = players.len();
    for i in 0..n
        invariant
            n == players@.len(),
            ps == entries_view(players@),
            forall|k: int| 0 <= k < i ==> #[trigger] ps[k].0 != id,
    {
        if players[i].0 == id {
            assert(ps[i as int].0 == id);
            return true;
        }
    }
    false
}

/// Whether a joined player goes by this name.
pub fn name_in_use(players: &Vec<(u128, String)>, name: &str) -> (r: bool)
    ensures
        r == name_taken(entries_view(players@), name@),
{
    let ghost ps = entries_view(players@);
    let n = players.len();
    for i in 0..n
        invariant
            n == players@.len(),
            ps == entries_view(players@),
            forall|k: int| 0 <= k < i ==> #[trigger] ps[k].1 != name@,
    {
        if same_text(players[i].1.as_str(), name) {
            assert(ps[i as int].1 == name@);
            return true;
        }
    }
    false
}

/// The name of the first joined player with this id, if any.
pub fn lookup_name(players: &Vec<(u128, String)>, id: u128) -> (r: Option<String>)
    ensures
        opt_text(r) == find_name(entries_view(players@), id),
{
    let ghost ps = entries_view(players@);
    let n = players.len();
    for i in 0..n
        invariant
            n == players@.len(),
            ps == entries_view(players@),
            forall|k: int| 0 <= k < i ==> #[trigger] ps[k].0 != id,
    {
        if players[i].0 == id {
            proof {
                assert(is_first_entry(ps, id, i as int));
                let c = choose|k: int| is_first_entry(ps, id, k);
                if c < i {
                    assert(ps[c].0 != id);
                } else if c > i {
                    assert(ps[i as int].0 != id);
                }
            }
            return Some(players[i].1.clone());
        }
    }
    None
}

/// Checks the parameters of a request to join a game, and gives the name
/// the player joins under (without surrounding white space).
pub fn check_join_params(game_id: &str, player_name: &Option<String>) -> (r: Result<
    String,
    AppError,
>)
    ensures
        !valid_game_id(game_id@) ==> (r matches Err(e) && is_invalid_input(
            e,
            "Invalid game ID format"@,
        )),
        valid_game_id(game_id@) ==> match opt_text(*player_name) {
            None => r matches Err(e) && is_invalid_input(e, "player_name is required"@),
            Some(n) => if trimmed(n).len() == 0 {
                r matches Err(e) && is_invalid_input(e, "player_name is required"@)
            } else if vstd::utf8::encode_utf8(trimmed(n)).len() > 32 {
                r matches Err(e) && is_invalid_input(
                    e,
                    "player_name must be 32 characters or fewer"@,
                )
            } else {
                r matches Ok(t) && t@ == trimmed(n)
            },
        },
{
    match validate_game_id(game_id) {
        Ok(()) => {},
        Err(e) => {
            return Err(e);
        },
    }
    let name = match player_name {
        Some(n) => trim_text(n.as_str()),
        None => {
            return Err(AppError::InvalidInput(String::from_str("player_name is required")));
        },
    };
    if name.is_empty() {
        return Err(AppError::InvalidInput(String::from_str("player_name is required")));
    }
    if byte_len(name) > 32 {
        return Err(
            AppError::InvalidInput(String::from_str("player_name must be 32 characters or fewer")),
        );
    }
    Ok(String::from_str(name))
}

/// Checks that a player may join the stored game under this name: it
/// exists, is still a lobby, has a free seat and no player of that name.
pub fn check_lobby_join(persisted: &Option<PersistedGameState>, player_name: &str) -> (r: Result<
    (),
    AppError,
>)
    ensures
        match *persisted {
            None => r matches Err(AppError::GameNotFound),
            Some(p) => if p.status != GameStateStatus::Lobby {
                r matches Err(AppError::GameAlreadyStarted)
            } else if p.players@.len() >= MAX_PLAYER {
                r matches Err(AppError::GameFull)
            } else if name_taken(p@.players, player_name@) {
                r matches Err(e) && is_invalid_input(e, "Name already taken"@)
            } else {
                r is Ok
            },
        },
{
    let p = match persisted {
        Some(p) => p,
        None => {
            return Err(AppError::GameNotFound);
        },
    };
    if p.status != GameStateStatus::Lobby {
        return Err(AppError::GameAlreadyStarted);
    }
    if p.players.len() >= MAX_PLAYER {
        return Err(AppError::GameFull);
    }
    if name_in_use(&p.players, player_name) {
        return Err(AppError::InvalidInput(String::from_str("Name already taken")));
    }
    Ok(())
}

/// What the claims of a token presented for a game connection come to:
/// the player's id, or the status and message of the refusal.
pub open spec fn claims_verdict(claims_game: Seq<char>, game_id: Seq<char>, player_text: Seq<
    char,
>) -> Result<u128, (u16, Seq<char>)> {
    if claims_game != game_id {
        Err((STATUS_UNAUTHORIZED, "Token game mismatch"@))
    } else {
        match uuid_from_text(player_text) {
            None => Err((STATUS_UNAUTHORIZED, "Invalid player id in token"@)),
            Some(id) => Ok(id),
        }
    }
}

/// The claims of a token issued to a player for a game admit that player,
/// under their id, to that game's connection.
pub proof fn lemma_issued_claims_pass(
    game_id: Seq<char>,
    player_id: u128,
    claims_game: Seq<char>,
    player_text: Seq<char>,
)
    requires
        claims_game == game_id,
        uuid_from_text(player_text) == Some(player_id),
    ensures
        claims_verdict(claims_game, game_id, player_text) == Ok::<u128, (u16, Seq<char>)>(
            player_id,
        ),
{
}

/// Checks the claims of a token presented for a game connection, and gives
/// the player's id.
pub fn check_ws_claims(claims: &Claims, game_id: &str) -> (r: Result<u128, (u16, &'static str)>)
    ensures
        match r {
            Ok(id) => claims_verdict(claims.game_id@, game_id@, claims.player_id@) == Ok::<
                u128,
                (u16, Seq<char>),
            >(id),
            Err(e) => claims_verdict(claims.game_id@, game_id@, claims.player_id@) == Err::<
                u128,
                (u16, Seq<char>),
            >((e.0, e.1@)),
        },
{
    if !same_text(claims.game_id.as_str(), game_id) {
        return Err((STATUS_UNAUTHORIZED, "Token game mismatch"));
    }
    match parse_uuid(claims.player_id.as_str()) {
        Some(id) => Ok(id),
        None => Err((STATUS_UNAUTHORIZED, "Invalid player id in token")),
    }
}

/// Decides whether a game connection is admitted: a player already in the
/// game reconnects unless it is finished; a new player joins only a lobby
/// with a free seat and no player of that name. Gives whether it is a
/// reconnection.
pub fn check_ws_admission(
    persisted: &Option<PersistedGameState>,
    player_id: u128,
    player_name: &str,
) -> (r: Result<bool, (u16, &'static str)>)
    ensures
        match *persisted {
            None => r matches Err(e) && e.0 == STATUS_NOT_FOUND && e.1@ == "Game not found"@,
            Some(p) => if has_player(p@.players, player_id) {
                if p.status == GameStateStatus::Finished {
                    r matches Err(e) && e.0 == STATUS_BAD_REQUEST && e.1@
                        == "Game already finished"@
                } else {
                    r == Ok::<bool, (u16, &'static str)>(true)
                }
            } else if p.status != GameStateStatus::Lobby {
                r matches Err(e) && e.0 == STATUS_BAD_REQUEST && e.1@ == "Game already started"@
            } else if p.players@.len() >= MAX_PLAYER {
                r matches Err(e) && e.0 == STATUS_BAD_REQUEST && e.1@ == "Game is full"@
            } else if name_taken(p@.players, player_name@) {
                r matches Err(e) && e.0 == STATUS_BAD_REQUEST && e.1@ == "Name already taken"@
            } else {
                r == Ok::<bool, (u16, &'static str)>(false)
            },
        },
{
    let p = match persisted {
        Some(p) => p,
        None => {
            return Err((STATUS_NOT_FOUND, "Game not found"));
        },
    };
    let is_reconnect = has_player_id(&p.players, player_id);
    if is_reconnect {
        if p.status == GameStateStatus::Finished {
            return Err((STATUS_BAD_REQUEST, "Game already finished"));
        }
    } else {
        if p.status != GameStateStatus::Lobby {
            return Err((STATUS_BAD_REQUEST, "Game already started"));
        }
        if p.players.len() >= MAX_PLAYER {
            return Err((STATUS_BAD_REQUEST, "Game is full"));
        }
        if name_in_use(&p.players, player_name) {
            return Err((STATUS_BAD_REQUEST, "Name already taken"));
        }
    }
    Ok(is_reconnect)
}

// ---------------------------------------------------------------------------
// Leaving and timing out
// ---------------------------------------------------------------------------

fn remove_entries(players: &Vec<(u128, String)>, id: u128) -> (r: Vec<(u128, String)>)
    ensures
        entries_view(r@) == without_player(entries_view(players@), id),
{
    let ghost ps = entries_view(players@);
    let mut r: Vec<(u128, String)> = Vec::new();
    let n = players.len();
    for i in 0..n
        invariant
            n == players@.len(),
            ps == entries_view(players@),
            entries_view(r@) == without_player(ps.take(i as int), id),
    {
        let ghost before = entries_view(r@);
        assert(ps.take(i + 1).drop_last() =~= ps.take(i as int));
        assert(ps.take(i + 1).last() == ps[i as int]);
        if players[i].0 != id {
            r.push((players[i].0, players[i].1.clone()));
            assert(entries_view(r@) =~= before.push(ps[i as int]));
        }
    }
    assert(ps.take(n as int) =~= ps);
    r
}

/// What to do with a stored game when a player's connection closes.
#[derive(Clone, Copy, Debug, PartialEq, Eq, Structural)]
pub enum DisconnectAction {
    /// The game is under way: keep the player and wait for them to
    /// reconnect.
    AwaitReconnect,
    /// The lobby is empty now: delete the game.
    RemoveGame,
    /// The player left the lobby: store the game.
    SaveGame,
}

/// A newly admitted player joins the lobby, after those already in it.
pub fn join_player(persisted: &mut PersistedGameState, player_id: u128, name: String)
    ensures
        final(persisted)@ == (SessionView {
            players: old(persisted)@.players.push((player_id, name@)),
            ..old(persisted)@
        }),
        session_consistent(old(persisted)@) ==> session_consistent(final(persisted)@),
{
    let ghost before = persisted.players@;
    persisted.players.push((player_id, name));
    proof {
        assert(entries_view(persisted.players@) =~= entries_view(before).push((player_id, name@)));
    }
}

/// A player's connection closed: during a game they keep their seat for a
/// while; in a lobby they leave it.
pub fn leave_game(persisted: &mut PersistedGameState, player_id: u128) -> (r: DisconnectAction)
    ensures
        ({
            let s = old(persisted)@;
            let f = final(persisted)@;
            let rest = without_player(s.players, player_id);
            if s.status == GameStateStatus::InProgress {
                r == DisconnectAction::AwaitReconnect && f == s
            } else {
                &&& f == SessionView {
                    id: s.id,
                    status: s.status,
                    game: s.game,
                    players: rest,
                }
                &&& r == if rest.len() == 0 {
                    DisconnectAction::RemoveGame
                } else {
                    DisconnectAction::SaveGame
                }
            }
        }),
        session_consistent(old(persisted)@) ==> session_consistent(final(persisted)@),
{
    if persisted.status == GameStateStatus::InProgress {
        return DisconnectAction::AwaitReconnect;
    }
    let rest = remove_entries(&persisted.players, player_id);
    persisted.players = rest;
    if persisted.players.len() == 0 {
        DisconnectAction::RemoveGame
    } else {
        DisconnectAction::SaveGame
    }
}

/// What comes of a player not reconnecting in time.
pub enum TimeoutOutcome {
    /// Nobody is left: delete the game.
    RemoveGame,
    /// One player is left and wins.
    AutoWin { winner_name: Option<String> },
    /// Several players are left: the game is abandoned.
    Abandon,
}

pub open spec fn game_after_leave(g: Option<GameView>, player: u128) -> Option<GameView> {
    match g {
        Some(g) => Some(after_remove_player(g, player)),
        None => None,
    }
}

/// A player did not reconnect in time: they leave the game; the last
/// player left wins, and with several left the game is abandoned.
pub fn expire_reconnect(persisted: &mut PersistedGameState, player_id: u128) -> (r: TimeoutOutcome)
    requires
        old(persisted)@.game matches Some(g) ==> remove_player_requires(g, player_id),
    ensures
        ({
            let s = old(persisted)@;
            let f = final(persisted)@;
            let rest = without_player(s.players, player_id);
            &&& f.id == s.id
            &&& f.players == rest
            &&& f.game == game_after_leave(s.game, player_id)
            &&& rest.len() == 0 ==> r is RemoveGame && f.status == s.status
            &&& rest.len() == 1 ==> f.status == GameStateStatus::Finished && (
            r matches TimeoutOutcome::AutoWin { winner_name } && opt_text(winner_name) == Some(
                rest[0].1,
            ))
            &&& rest.len() > 1 ==> r is Abandon && f.status == GameStateStatus::Finished
        }),
        session_consistent(old(persisted)@) && !(r is RemoveGame) ==> session_consistent(
            final(persisted)@,
        ),
{
    let rest = remove_entries(&persisted.players, player_id);
    persisted.players = rest;
    match &mut persisted.game {
        Some(game) => {
            let _ = game.remove_player(&player_id);
        },
        None => {},
    }
    let remaining = persisted.players.len();
    if remaining == 0 {
        TimeoutOutcome::RemoveGame
    } else if remaining == 1 {
        let winner_name = Some(persisted.players[0].1.clone());
        persisted.status = GameStateStatus::Finished;
        TimeoutOutcome::AutoWin { winner_name }
    } else {
        persisted.status = GameStateStatus::Finished;
        TimeoutOutcome::Abandon
    }
}

// ---------------------------------------------------------------------------
// What players are shown
// ---------------------------------------------------------------------------

/// A player as shown to others: name, hand and bin as card texts.
pub struct PlayerData {
    pub name: String,
    pub hand: Vec<String>,
    pub bin: Vec<String>,
}

/// A player's final score and hand.
pub struct EndGameScores {
    pub name: String,
    pub score: i16,
    pub hand: Vec<String>,
}

/// The final scores and the winner's name.
pub struct EndGameData {
    pub winner_name: Option<String>,
    pub players: Vec<EndGameScores>,
}

/// The state of a game as shown to one player.
pub struct GameData {
    pub player_id: u128,
    pub player_pos: u8,
    pub num_of_players: u8,
    pub card_left: u8,
    pub current_turn: u8,
    pub current_phase: GamePhase,
    pub event: GameEvent,
    pub players: Vec<PlayerData>,
}

pub open spec fn texts(v: Seq<String>) -> Seq<Seq<char>> {
    v.map_values(|s: String| s@)
}

/// The texts of a run of cards.
pub open spec fn cards_text(cards: Seq<Card>) -> Seq<Seq<char>> {
    cards.map_values(|c: Card| card_text(c))
}

/// The texts of a run of cards.
pub fn card_texts(cards: &Vec<Card>) -> (r: Vec<String>)
    ensures
        texts(r@) == cards_text(cards@),
{
    let mut r: Vec<String> = Vec::new();
    let n = cards.len();
    for i in 0..n
        invariant
            n == cards@.len(),
            texts(r@) =~= cards_text(cards@).take(i as int),
    {
        let ghost before = r@;
        let t = cards[i].to_string();
        assert(t@ == card_text(cards@[i as int]));
        r.push(t);
        assert(r@ =~= before.push(t));
        assert(texts(r@) =~= texts(before).push(t@));
        assert(texts(r@) =~= cards_text(cards@).take(i + 1));
    }
    assert(cards_text(cards@).take(n as int) =~= cards_text(cards@));
    r
}

fn blank_texts(n: usize) -> (r: Vec<String>)
    ensures
        texts(r@) == Seq::new(n as nat, |i: int| Seq::<char>::empty()),
{
    let mut r: Vec<String> = Vec::new();
    for i in 0..n
        invariant
            texts(r@) =~= Seq::new(i as nat, |k: int| Seq::<char>::empty()),
    {
        let ghost before = r@;
        let e = String::new();
        r.push(e);
        assert(r@ =~= before.push(e));
        assert(texts(r@) =~= texts(before).push(e@));
    }
    r
}

/// The joined players as listed in the lobby: names only.
pub fn player_list(persisted: &PersistedGameState) -> (r: Vec<PlayerData>)
    ensures
        r@.len() == persisted@.players.len(),
        forall|i: int|
            0 <= i < r@.len() ==> {
                &&& (#[trigger] r@[i]).name@ == persisted@.players[i].1
                &&& r@[i].hand@.len() == 0
                &&& r@[i].bin@.len() == 0
            },
{
    let ghost ps = persisted@.players;
    let mut r: Vec<PlayerData> = Vec::new();
    let n = persisted.players.len();
    for i in 0..n
        invariant
            n == ps.len(),
            ps == persisted@.players,
            r@.len() == i,
            forall|k: int|
                0 <= k < i ==> {
                    &&& (#[trigger] r@[k]).name@ == ps[k].1
                    &&& r@[k].hand@.len() == 0
                    &&& r@[k].bin@.len() == 0
                },
    {
        r.push(
            PlayerData { name: persisted.players[i].1.clone(), hand: Vec::new(), bin: Vec::new() },
        );
    }
    r
}

/// The name of the player with this id, or the empty name.
fn name_or_default(players: &Vec<(u128, String)>, id: u128) -> (r: String)
    ensures
        r@ == name_or_empty(entries_view(players@), id),
{
    match lookup_name(players, id) {
        Some(n) => n,
        None => String::new(),
    }
}

/// The final scores of a game: for each seat the player's name, score and
/// hand; and the winner's name, when there is a winner whose name is known.
pub fn end_game_data(persisted: &PersistedGameState) -> (r: Option<EndGameData>)
    requires
        persisted@.game matches Some(g) ==> scores_in_range(g.players),
    ensures
        match persisted@.game {
            None => r is None,
            Some(g) => r matches Some(d) && {
                &&& d.players@.len() == g.players.len()
                &&& forall|i: int|
                    0 <= i < g.players.len() ==> {
                        &&& (#[trigger] d.players@[i]).name@ == name_or_empty(
                            persisted@.players,
                            g.players[i].id,
                        )
                        &&& d.players@[i].score == hand_score(g.players[i].hand)
                        &&& texts(d.players@[i].hand@) == cards_text(g.players[i].hand)
                    }
                &&& opt_text(d.winner_name) == match game_winner(g) {
                    Some(w) => find_name(persisted@.players, w.id),
                    None => None,
                }
            },
        },
{
    let game = match &persisted.game {
        Some(g) => g,
        None => {
            return None;
        },
    };
    let ghost g = game@;
    let mut scores: Vec<EndGameScores> = Vec::new();
    let n = game.players.len();
    for i in 0..n
        invariant
            n == g.players.len(),
            g == game@,
            scores_in_range(g.players),
            scores@.len() == i,
            forall|k: int|
                0 <= k < i ==> {
                    &&& (#[trigger] scores@[k]).name@ == name_or_empty(
                        persisted@.players,
                        g.players[k].id,
                    )
                    &&& scores@[k].score == hand_score(g.players[k].hand)
                    &&& texts(scores@[k].hand@) == cards_text(g.players[k].hand)
                },
    {
        let player = &game.players[i];
        assert(g.players[i as int] == player@);
        assert(crate::game::score_in_range(g.players[i as int].hand));
        let entry = EndGameScores {
            name: name_or_default(&persisted.players, player.id),
            score: player.score(),
            hand: card_texts(&player.hand),
        };
        scores.push(entry);
    }
    let winner_name = match game.winner() {
        Some(w) => lookup_name(&persisted.players, w.id),
        None => None,
    };
    Some(EndGameData { winner_name, players: scores })
}

/// What the player with id `viewer` is shown of a game after an event:
/// their seat, the number of players, the cards left, whose turn it is and
/// in which phase, and every seat with its name and bin, and its hand as
/// card texts for the viewer's own seat and as blanks for the others.
/// Nothing when there is no game or the viewer has no seat in it.
pub fn game_data_for(persisted: &PersistedGameState, viewer: u128, event: GameEvent) -> (r: Option<
    GameData,
>)
    ensures
        match persisted@.game {
            None => r is None,
            Some(g) => match seat_of(g.players, viewer) {
                None => r is None,
                Some(pos) => r matches Some(d) && {
                    &&& d.player_id == viewer
                    &&& d.player_pos == pos as u8
                    &&& d.num_of_players == persisted@.players.len() as u8
                    &&& d.card_left == g.deck.len() as u8
                    &&& d.current_turn == g.current_turn as u8
                    &&& d.current_phase == g.phase
                    &&& d.event == event
                    &&& d.players@.len() == g.players.len()
                    &&& forall|i: int|
                        0 <= i < g.players.len() ==> {
                            &&& (#[trigger] d.players@[i]).name@ == name_or_empty(
                                persisted@.players,
                                g.players[i].id,
                            )
                            &&& texts(d.players@[i].hand@) == if g.players[i].id == viewer {
                                cards_text(g.players[i].hand)
                            } else {
                                Seq::new(
                                    g.players[i].hand.len(),
                                    |k: int| Seq::<char>::empty(),
                                )
                            }
                            &&& texts(d.players@[i].bin@) == cards_text(g.players[i].bin)
                        }
                },
            },
        },
{
    let game = match &persisted.game {
        Some(g) => g,
        None => {
            return None;
        },
    };
    let ghost g = game@;
    let pos = match game.player_pos(&viewer) {
        Some(p) => p,
        None => {
            return None;
        },
    };
    let mut players: Vec<PlayerData> = Vec::new();
    let n = game.players.len();
    for i in 0..n
        invariant
            n == g.players.len(),
            g == game@,
            players@.len() == i,
            forall|k: int|
                0 <= k < i ==> {
                    &&& (#[trigger] players@[k]).name@ == name_or_empty(
                        persisted@.players,
                        g.players[k].id,
                    )
                    &&& texts(players@[k].hand@) == if g.players[k].id == viewer {
                        cards_text(g.players[k].hand)
                    } else {
                        Seq::new(g.players[k].hand.len(), |j: int| Seq::<char>::empty())
                    }
                    &&& texts(players@[k].bin@) == cards_text(g.players[k].bin)
                },
    {
        let p = &game.players[i];
        assert(g.players[i as int] == p@);
        let name = name_or_default(&persisted.players, p.id);
        let hand = if p.id == viewer {
            card_texts(&p.hand)
        } else {
            blank_texts(p.hand.len())
        };
        players.push(PlayerData { name, hand, bin: card_texts(&p.bin) });
    }
    Some(
        GameData {
            player_id: viewer,
            player_pos: #[verifier::truncate] (pos as u8),
            num_of_players: #[verifier::truncate] (persisted.players.len() as u8),
            card_left: game.card_left(),
            current_turn: #[verifier::truncate] (game.current_turn as u8),
            current_phase: game.phase,
            event,
            players,
        },
    )
}

impl PersistedGameState {
    /// A new, empty lobby under this id.
    pub fn new_lobby(id: String) -> (r: PersistedGameState)
        ensures
            r@ == (SessionView {
                id: id@,
                status: GameStateStatus::Lobby,
                game: None,
                players: Seq::empty(),
            }),
            session_consistent(r@),
    {
        let r = PersistedGameState {
            id,
            status: GameStateStatus::Lobby,
            game: None,
            players: Vec::new(),
        };
        assert(r@.players =~= Seq::<(u128, Seq<char>)>::empty());
        r
    }
}

/// The storage key of a game: the prefix, `:game:`, and the game's id.
pub fn storage_key(prefix: &str, game_id: &str) -> (r: String)
    ensures
        r@ == prefix@ + ":game:"@ + game_id@,
{
    String::from_str(prefix).concat(":game:").concat(game_id)
}

} // verus!
