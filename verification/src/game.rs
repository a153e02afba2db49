//! The round engine of 41-Rummy: dealing, the two phases of a turn
//! (take a card from the deck or from one's bin, then discard or close),
//! scoring and the winner.

use vstd::prelude::*;
use crate::card::{Card, Rank, Suit, rank_points};
use crate::ids::fresh_id;
use rand::seq::SliceRandom;
use vstd::multiset::Multiset;

verus! {

broadcast use {vstd::seq_lib::group_to_multiset_ensures, vstd::multiset::group_multiset_axioms};

/// Most players a game seats (enforced when players join).
pub const MAX_PLAYER: usize = 4;

/// Least score with which a player may close the game.
pub const MINIMUM_CLOSE_SCORE: i16 = 38;

/// Why the engine refused a move.
#[derive(Debug, Clone, Copy, PartialEq, Eq, Structural)]
pub enum EngineError {
    InvalidPlayer,
    InvalidTurn,
    InvalidMove,
    CardNotFound,
    InsufficientDeck,
}

/// Whether a game goes on after a move.
#[derive(Debug, Clone, Copy, PartialEq, Eq, Structural)]
pub enum GameStatus {
    InProgress,
    Ended,
}

/// The phase of the current turn: `P1` take a card, `P2` discard or close.
#[derive(Debug, Clone, Copy, PartialEq, Eq, Structural)]
pub enum GamePhase {
    GameEnded,
    P1,
    P2,
}

/// A seated player: an id, the cards in hand, and the bin of cards the
/// previous player discarded to them.
pub struct Player {
    pub id: u128,
    pub hand: Vec<Card>,
    pub bin: Vec<Card>,
}

/// A player as a mathematical value.
pub ghost struct PlayerView {
    pub id: u128,
    pub hand: Seq<Card>,
    pub bin: Seq<Card>,
}

impl View for Player {
    type V = PlayerView;

    open spec fn view(&self) -> PlayerView {
        PlayerView { id: self.id, hand: self.hand@, bin: self.bin@ }
    }
}

/// What a discard or a close answers.
pub struct EndPhaseResponse {
    pub status: Option<GameStatus>,
    pub next_turn: u8,
    pub winner: Option<Player>,
}

/// A game: its players in seating order, the deck (drawn from its end),
/// whose turn it is and in which phase.
pub struct Game {
    pub id: u128,
    pub players: Vec<Player>,
    pub deck: Vec<Card>,
    pub current_turn: usize,
    pub phase: GamePhase,
}

/// A game as a mathematical value.
pub ghost struct GameView {
    pub id: u128,
    pub players: Seq<PlayerView>,
    pub deck: Seq<Card>,
    pub current_turn: int,
    pub phase: GamePhase,
}

/// The views of a sequence of players.
pub open spec fn players_view(ps: Seq<Player>) -> Seq<PlayerView> {
    ps.map_values(|p: Player| p@)
}

impl View for Game {
    type V = GameView;

    open spec fn view(&self) -> GameView {
        GameView {
            id: self.id,
            players: players_view(self.players@),
            deck: self.deck@,
            current_turn: self.current_turn as int,
            phase: self.phase,
        }
    }
}

// ---------------------------------------------------------------------------
// Scoring
// ---------------------------------------------------------------------------

/// Points of the cards of one suit in a hand.
pub open spec fn suit_points(hand: Seq<Card>, s: Suit) -> int
    decreases hand.len(),
{
    if hand.len() == 0 {
        0
    } else {
        suit_points(hand.drop_last(), s) + if hand.last().suit == s {
            rank_points(hand.last().rank) as int
        } else {
            0
        }
    }
}

/// Points of all cards in a hand.
pub open spec fn hand_points(hand: Seq<Card>) -> int {
    suit_points(hand, Suit::Hearts) + suit_points(hand, Suit::Diamonds) + suit_points(
        hand,
        Suit::Clubs,
    ) + suit_points(hand, Suit::Spades)
}

pub open spec fn max2(a: int, b: int) -> int {
    if a >= b {
        a
    } else {
        b
    }
}

/// Points of the richest suit in a hand.
pub open spec fn best_suit_points(hand: Seq<Card>) -> int {
    max2(
        max2(suit_points(hand, Suit::Hearts), suit_points(hand, Suit::Diamonds)),
        max2(suit_points(hand, Suit::Clubs), suit_points(hand, Suit::Spades)),
    )
}

/// The score of a hand: the points of its richest suit minus the points of
/// all other cards.
pub open spec fn hand_score(hand: Seq<Card>) -> int {
    2 * best_suit_points(hand) - hand_points(hand)
}

/// A hand whose score the engine computes without overflow in 16 bits.
pub open spec fn score_in_range(hand: Seq<Card>) -> bool {
    hand_points(hand) <= 0x7fff && 2 * best_suit_points(hand) <= 0x7fff
}

/// All hands of these players can be scored.
pub open spec fn scores_in_range(ps: Seq<PlayerView>) -> bool {
    forall|i: int| 0 <= i < ps.len() ==> #[trigger] score_in_range(ps[i].hand)
}

/// No suit of a hand has negative points.
pub proof fn lemma_suit_points_nonneg(hand: Seq<Card>, s: Suit)
    ensures
        suit_points(hand, s) >= 0,
    decreases hand.len(),
{
    if hand.len() > 0 {
        lemma_suit_points_nonneg(hand.drop_last(), s);
    }
}

/// The points of a suit in a prefix of a hand are at most those in the hand.
pub proof fn lemma_suit_points_prefix(hand: Seq<Card>, i: int, s: Suit)
    requires
        0 <= i <= hand.len(),
    ensures
        suit_points(hand.take(i), s) <= suit_points(hand, s),
    decreases hand.len(),
{
    if i == hand.len() {
        assert(hand.take(i) =~= hand);
    } else {
        assert(hand.drop_last().take(i) =~= hand.take(i));
        lemma_suit_points_prefix(hand.drop_last(), i, s);
    }
}

/// Taking one card out of a hand takes its points out of its suit.
pub proof fn lemma_suit_points_remove(hand: Seq<Card>, i: int, s: Suit)
    requires
        0 <= i < hand.len(),
    ensures
        suit_points(hand.remove(i), s) == suit_points(hand, s) - if hand[i].suit == s {
            rank_points(hand[i].rank) as int
        } else {
            0
        },
    decreases hand.len(),
{
    if i == hand.len() - 1 {
        assert(hand.remove(i) =~= hand.drop_last());
    } else {
        assert(hand.remove(i).drop_last() =~= hand.drop_last().remove(i));
        assert(hand.remove(i).last() == hand.last());
        lemma_suit_points_remove(hand.drop_last(), i, s);
    }
}

/// The points of each suit, and so the score, depend only on which cards
/// a hand holds, not on their order.
pub proof fn lemma_hand_score_order_free(h1: Seq<Card>, h2: Seq<Card>)
    requires
        h1.to_multiset() == h2.to_multiset(),
    ensures
        forall|s: Suit| #[trigger] suit_points(h1, s) == suit_points(h2, s),
        hand_points(h1) == hand_points(h2),
        best_suit_points(h1) == best_suit_points(h2),
        hand_score(h1) == hand_score(h2),
    decreases h1.len(),
{
    if h1.len() == 0 {
        assert(h2.to_multiset().len() == 0);
        assert(h2 =~= h1);
    } else {
        let x = h1.last();
        assert(h1.to_multiset().count(x) > 0) by {
            assert(h1.contains(x)) by {
                assert(h1[h1.len() - 1] == x);
            }
        }
        assert(h2.contains(x));
        let j = choose|j: int| 0 <= j < h2.len() && h2[j] == x;
        let r1 = h1.drop_last();
        let r2 = h2.remove(j);
        assert(h1.remove(h1.len() - 1) =~= r1);
        assert(r1.to_multiset() == h1.to_multiset().remove(x));
        assert(r2.to_multiset() == h2.to_multiset().remove(x));
        lemma_hand_score_order_free(r1, r2);
        assert forall|s: Suit| #[trigger] suit_points(h1, s) == suit_points(h2, s) by {
            lemma_suit_points_remove(h2, j, s);
            assert(suit_points(r1, s) == suit_points(r2, s));
        }
        assert(suit_points(h1, Suit::Hearts) == suit_points(h2, Suit::Hearts));
        assert(suit_points(h1, Suit::Diamonds) == suit_points(h2, Suit::Diamonds));
        assert(suit_points(h1, Suit::Clubs) == suit_points(h2, Suit::Clubs));
        assert(suit_points(h1, Suit::Spades) == suit_points(h2, Suit::Spades));
    }
}

impl Player {
    /// Score of this player's hand.
    pub fn score(&self) -> (r: i16)
        requires
            score_in_range(self.hand@),
        ensures
            r == hand_score(self.hand@),
    {
        let ghost hand = self.hand@;
        let mut h: u16 = 0;
        let mut d: u16 = 0;
        let mut c: u16 = 0;
        let mut s: u16 = 0;
        let mut max_point: u16 = 0;
        let n = self.hand.len();
        for i in 0..n
            invariant
                n == hand.len(),
                hand == self.hand@,
                score_in_range(hand),
                h == suit_points(hand.take(i as int), Suit::Hearts),
                d == suit_points(hand.take(i as int), Suit::Diamonds),
                c == suit_points(hand.take(i as int), Suit::Clubs),
                s == suit_points(hand.take(i as int), Suit::Spades),
                max_point == max2(max2(h as int, d as int), max2(c as int, s as int)),
        {
            let ghost next = hand.take(i + 1);
            proof {
                assert(next.drop_last() =~= hand.take(i as int));
                lemma_suit_points_prefix(hand, i + 1, Suit::Hearts);
                lemma_suit_points_prefix(hand, i + 1, Suit::Diamonds);
                lemma_suit_points_prefix(hand, i + 1, Suit::Clubs);
                lemma_suit_points_prefix(hand, i + 1, Suit::Spades);
                lemma_suit_points_nonneg(hand, Suit::Hearts);
                lemma_suit_points_nonneg(hand, Suit::Diamonds);
                lemma_suit_points_nonneg(hand, Suit::Clubs);
                lemma_suit_points_nonneg(hand, Suit::Spades);
            }
            let card = self.hand[i];
            let p = card.points();
            match card.suit {
                Suit::Hearts => {
                    h = h + p;
                    if h > max_point {
                        max_point = h;
                    }
                },
                Suit::Diamonds => {
                    d = d + p;
                    if d > max_point {
                        max_point = d;
                    }
                },
                Suit::Clubs => {
                    c = c + p;
                    if c > max_point {
                        max_point = c;
                    }
                },
                Suit::Spades => {
                    s = s + p;
                    if s > max_point {
                        max_point = s;
                    }
                },
            }
        }
        proof {
            assert(hand.take(n as int) =~= hand);
        }
        let total: u16 = h + d + c + s;
        (max_point as i16) * 2 - (total as i16)
    }
}

impl Clone for Player {
    fn clone(&self) -> (r: Self)
        ensures
            r@ == self@,
    {
        Player { id: self.id, hand: self.hand.clone(), bin: self.bin.clone() }
    }
}


// ---------------------------------------------------------------------------
// Positions, turns and the winner
// ---------------------------------------------------------------------------

/// `i` is the first seat held by the player with this id.
pub open spec fn is_first_seat(ps: Seq<PlayerView>, id: u128, i: int) -> bool {
    &&& 0 <= i < ps.len()
    &&& ps[i].id == id
    &&& forall|j: int| 0 <= j < i ==> #[trigger] ps[j].id != id
}

/// The first seat held by the player with this id, if any.
pub open spec fn seat_of(ps: Seq<PlayerView>, id: u128) -> Option<int> {
    if exists|i: int| is_first_seat(ps, id, i) {
        Some(choose|i: int| is_first_seat(ps, id, i))
    } else {
        None
    }
}

/// A player holds at most one first seat.
pub proof fn lemma_first_seat_unique(ps: Seq<PlayerView>, id: u128, i: int, k: int)
    requires
        is_first_seat(ps, id, i),
        is_first_seat(ps, id, k),
    ensures
        i == k,
{
    if i < k {
        assert(ps[i].id != id);
    } else if k < i {
        assert(ps[k].id != id);
    }
}

/// `i` is the first position of this card in a hand.
pub open spec fn is_first_pos(s: Seq<Card>, c: Card, i: int) -> bool {
    &&& 0 <= i < s.len()
    &&& s[i] == c
    &&& forall|j: int| 0 <= j < i ==> #[trigger] s[j] != c
}

/// The hand without the first copy of a card (the hand itself when the
/// card is not in it).
pub open spec fn remove_first(s: Seq<Card>, c: Card) -> Seq<Card> {
    if exists|i: int| is_first_pos(s, c, i) {
        s.remove(choose|i: int| is_first_pos(s, c, i))
    } else {
        s
    }
}

/// A card has at most one first position in a hand.
pub proof fn lemma_first_pos_unique(s: Seq<Card>, c: Card, i: int, k: int)
    requires
        is_first_pos(s, c, i),
        is_first_pos(s, c, k),
    ensures
        i == k,
{
    if i < k {
        assert(s[i] != c);
    } else if k < i {
        assert(s[k] != c);
    }
}

/// The player at seat `i` is alone at the top with a positive score.
pub open spec fn leads_alone(ps: Seq<PlayerView>, i: int) -> bool {
    &&& 0 <= i < ps.len()
    &&& hand_score(ps[i].hand) > 0
    &&& forall|j: int|
        0 <= j < ps.len() && j != i ==> #[trigger] hand_score(ps[j].hand) < hand_score(
            ps[i].hand,
        )
}

/// The player with the strictly highest positive score, if there is one.
pub open spec fn sole_leader(ps: Seq<PlayerView>) -> Option<PlayerView> {
    if exists|i: int| leads_alone(ps, i) {
        Some(ps[choose|i: int| leads_alone(ps, i)])
    } else {
        None
    }
}

/// The winner of a game: only an ended game has one.
pub open spec fn game_winner(g: GameView) -> Option<PlayerView> {
    if g.phase == GamePhase::GameEnded {
        sole_leader(g.players)
    } else {
        None
    }
}

pub open spec fn view_of(o: Option<Player>) -> Option<PlayerView> {
    match o {
        Some(p) => Some(p@),
        None => None,
    }
}

/// The seat whose turn it is exists.
pub open spec fn valid_turn(g: GameView) -> bool {
    0 <= g.current_turn < g.players.len()
}

/// It is this player's turn and the turn is in this phase.
pub open spec fn on_turn(g: GameView, player: u128, phase: GamePhase) -> bool {
    g.players[g.current_turn].id == player && g.phase == phase
}

/// The seat after the current one.
pub open spec fn next_seat(g: GameView) -> int {
    (g.current_turn + 1) % (g.players.len() as int)
}

pub open spec fn with_hand(p: PlayerView, hand: Seq<Card>) -> PlayerView {
    PlayerView { id: p.id, hand, bin: p.bin }
}

pub open spec fn with_bin(p: PlayerView, bin: Seq<Card>) -> PlayerView {
    PlayerView { id: p.id, hand: p.hand, bin }
}

impl Game {
    /// The player with the strictly highest positive score once the game
    /// has ended; `None` before the end and when the top score is shared
    /// or not positive.
    pub fn winner(&self) -> (r: Option<Player>)
        requires
            self.phase == GamePhase::GameEnded ==> scores_in_range(self@.players),
        ensures
            view_of(r) == game_winner(self@),
    {
        if self.phase != GamePhase::GameEnded {
            return None;
        }
        let ghost ps = self@.players;
        let mut winner: Option<Player> = None;
        let mut max_score: i16 = 0;
        let ghost mut widx: int = -1;
        let ghost mut holder: int = 0;
        let ghost mut t1: int = 0;
        let ghost mut t2: int = 0;
        let n = self.players.len();
        for k in 0..n
            invariant
                n == ps.len(),
                ps == self@.players,
                scores_in_range(ps),
                0 <= max_score,
                forall|j: int| 0 <= j < k ==> #[trigger] hand_score(ps[j].hand) <= max_score,
                max_score > 0 ==> 0 <= holder < k && hand_score(ps[holder].hand) == max_score,
                winner is Some <==> widx >= 0,
                widx >= 0 ==> {
                    &&& widx < k
                    &&& view_of(winner) == Some(ps[widx])
                    &&& hand_score(ps[widx].hand) == max_score
                    &&& max_score > 0
                    &&& forall|j: int|
                        0 <= j < k && j != widx ==> #[trigger] hand_score(ps[j].hand) < max_score
                },
                widx < 0 ==> max_score == 0 || (0 <= t1 < k && 0 <= t2 < k && t1 != t2
                    && hand_score(ps[t1].hand) == max_score && hand_score(ps[t2].hand)
                    == max_score),
        {
            assert(ps[k as int] == self.players@[k as int]@);
            assert(score_in_range(ps[k as int].hand));
            let score = self.players[k].score();
            if score > max_score {
                winner = Some(self.players[k].clone());
                max_score = score;
                proof {
                    widx = k as int;
                    holder = k as int;
                }
            } else if score == max_score {
                winner = None;
                proof {
                    if max_score > 0 {
                        t1 = holder;
                        t2 = k as int;
                    }
                    widx = -1;
                }
            }
        }
        proof {
            if widx >= 0 {
                assert(leads_alone(ps, widx));
                let c = choose|i: int| leads_alone(ps, i);
                if c != widx {
                    assert(hand_score(ps[c].hand) < hand_score(ps[widx].hand));
                    assert(hand_score(ps[widx].hand) < hand_score(ps[c].hand));
                }
            } else {
                assert forall|i: int| !leads_alone(ps, i) by {
                    if 0 <= i < ps.len() && hand_score(ps[i].hand) > 0 {
                        assert(hand_score(ps[i].hand) <= max_score);
                        if i != t1 {
                            assert(hand_score(ps[t1].hand) == max_score);
                        } else {
                            assert(hand_score(ps[t2].hand) == max_score);
                        }
                    }
                }
            }
        }
        winner
    }

    /// The player whose turn it is.
    pub fn current_player(&self) -> (r: Option<&Player>)
        ensures
            r == (if self.current_turn < self.players.len() {
                Some(&self.players@[self.current_turn as int])
            } else {
                None
            }),
    {
        if self.current_turn < self.players.len() {
            Some(&self.players[self.current_turn])
        } else {
            None
        }
    }

    /// The seat of the player with this id.
    pub fn player_pos(&self, player_uuid: &u128) -> (r: Option<usize>)
        ensures
            match r {
                Some(i) => seat_of(self@.players, *player_uuid) == Some(i as int),
                None => seat_of(self@.players, *player_uuid) is None,
            },
    {
        let ghost ps = self@.players;
        let n = self.players.len();
        for i in 0..n
            invariant
                n == ps.len(),
                ps == self@.players,
                forall|j: int| 0 <= j < i ==> #[trigger] ps[j].id != *player_uuid,
        {
            assert(ps[i as int].id == self.players@[i as int].id);
            if self.players[i].id == *player_uuid {
                proof {
                    assert(is_first_seat(ps, *player_uuid, i as int));
                    let c = choose|k: int| is_first_seat(ps, *player_uuid, k);
                    lemma_first_seat_unique(ps, *player_uuid, i as int, c);
                }
                return Some(i);
            }
        }
        None
    }

    /// Cards left in the deck (as a byte, as sent to clients).
    pub fn card_left(&self) -> (r: u8)
        ensures
            r == self.deck.len() as u8,
    {
        self.deck.len() as u8
    }
}


// ---------------------------------------------------------------------------
// Moves
// ---------------------------------------------------------------------------

/// What drawing answers.
pub open spec fn draw_outcome(g: GameView, player: u128) -> Result<(), EngineError> {
    if !on_turn(g, player, GamePhase::P1) || g.deck.len() == 0 {
        Err(EngineError::InvalidMove)
    } else {
        Ok(())
    }
}

/// The game after the current player draws the top card of the deck.
pub open spec fn after_draw(g: GameView) -> GameView {
    let p = g.players[g.current_turn];
    GameView {
        id: g.id,
        players: g.players.update(g.current_turn, with_hand(p, p.hand.push(g.deck.last()))),
        deck: g.deck.drop_last(),
        current_turn: g.current_turn,
        phase: GamePhase::P2,
    }
}

/// What taking from the bin answers.
pub open spec fn take_bin_outcome(g: GameView, player: u128) -> Result<(), EngineError> {
    if !on_turn(g, player, GamePhase::P1) || g.players[g.current_turn].bin.len() == 0 {
        Err(EngineError::InvalidMove)
    } else {
        Ok(())
    }
}

/// The game after the current player takes the last card of their bin.
pub open spec fn after_take_bin(g: GameView) -> GameView {
    let p = g.players[g.current_turn];
    GameView {
        id: g.id,
        players: g.players.update(
            g.current_turn,
            PlayerView { id: p.id, hand: p.hand.push(p.bin.last()), bin: p.bin.drop_last() },
        ),
        deck: g.deck,
        current_turn: g.current_turn,
        phase: GamePhase::P2,
    }
}

/// What discarding answers, before the response is built.
pub open spec fn discard_outcome(g: GameView, player: u128, card: Card) -> Result<
    (),
    EngineError,
> {
    if !on_turn(g, player, GamePhase::P2) {
        Err(EngineError::InvalidMove)
    } else if !g.players[g.current_turn].hand.contains(card) {
        Err(EngineError::CardNotFound)
    } else {
        Ok(())
    }
}

/// The game after the current player discards a card: the card goes to
/// the next player's bin and the turn passes; with the deck empty the game
/// ends instead and the card leaves play.
pub open spec fn after_discard(g: GameView, card: Card) -> GameView {
    let p = g.players[g.current_turn];
    let ps = g.players.update(g.current_turn, with_hand(p, remove_first(p.hand, card)));
    let nt = next_seat(g);
    if g.deck.len() > 0 {
        GameView {
            id: g.id,
            players: ps.update(nt, with_bin(ps[nt], ps[nt].bin.push(card))),
            deck: g.deck,
            current_turn: nt,
            phase: GamePhase::P1,
        }
    } else {
        GameView {
            id: g.id,
            players: ps,
            deck: g.deck,
            current_turn: nt,
            phase: GamePhase::GameEnded,
        }
    }
}

/// What closing answers, before the response is built.
pub open spec fn close_outcome(g: GameView, player: u128, card: Card) -> Result<(), EngineError> {
    if !on_turn(g, player, GamePhase::P2) {
        Err(EngineError::InvalidMove)
    } else if !g.players[g.current_turn].hand.contains(card) {
        Err(EngineError::CardNotFound)
    } else if hand_score(g.players[g.current_turn].hand) < MINIMUM_CLOSE_SCORE {
        Err(EngineError::InvalidMove)
    } else {
        Ok(())
    }
}

/// The game after the current player closes with a card: the card leaves
/// play and the game ends.
pub open spec fn after_close(g: GameView, card: Card) -> GameView {
    let p = g.players[g.current_turn];
    GameView {
        id: g.id,
        players: g.players.update(g.current_turn, with_hand(p, remove_first(p.hand, card))),
        deck: g.deck,
        current_turn: next_seat(g),
        phase: GamePhase::GameEnded,
    }
}

/// The game after a close refused for its score: the card taken out of the
/// hand goes back at its end.
pub open spec fn after_refused_close(g: GameView, card: Card) -> GameView {
    let p = g.players[g.current_turn];
    GameView {
        id: g.id,
        players: g.players.update(
            g.current_turn,
            with_hand(p, remove_first(p.hand, card).push(card)),
        ),
        deck: g.deck,
        current_turn: g.current_turn,
        phase: g.phase,
    }
}

/// What `discard` needs to run without overflow: the scores it computes
/// when the move ends the game.
pub open spec fn discard_requires(g: GameView, player: u128, card: Card) -> bool {
    &&& valid_turn(g)
    &&& (discard_outcome(g, player, card) is Ok && g.deck.len() == 0) ==> scores_in_range(
        after_discard(g, card).players,
    )
}

/// What `close` needs to run without overflow: the scores it computes.
pub open spec fn close_requires(g: GameView, player: u128, card: Card) -> bool {
    &&& valid_turn(g)
    &&& (on_turn(g, player, GamePhase::P2) && g.players[g.current_turn].hand.contains(card))
        ==> score_in_range(g.players[g.current_turn].hand)
    &&& close_outcome(g, player, card) is Ok ==> scores_in_range(after_close(g, card).players)
}

/// Whether a hand holds this card.
fn hand_holds(hand: &Vec<Card>, card: &Card) -> (r: bool)
    ensures
        r == hand@.contains(*card),
{
    let n = hand.len();
    for i in 0..n
        invariant
            n == hand@.len(),
            forall|j: int| 0 <= j < i ==> #[trigger] hand@[j] != *card,
    {
        if hand[i] == *card {
            return true;
        }
    }
    false
}

impl Game {
    fn remove_card(&mut self, card: &Card) -> (r: Result<(), EngineError>)
        requires
            valid_turn(old(self)@),
        ensures
            ({
                let g = old(self)@;
                let p = g.players[g.current_turn];
                &&& r is Ok <==> p.hand.contains(*card)
                &&& r is Err ==> r == Err::<(), EngineError>(EngineError::CardNotFound)
                &&& final(self)@ == GameView {
                    id: g.id,
                    players: g.players.update(
                        g.current_turn,
                        with_hand(p, remove_first(p.hand, *card)),
                    ),
                    deck: g.deck,
                    current_turn: g.current_turn,
                    phase: g.phase,
                }
            }),
    {
        let ghost g = self@;
        let ct = self.current_turn;
        let ghost hand = self.players@[ct as int].hand@;
        assert(hand == g.players[ct as int].hand);
        let n = self.players[ct].hand.len();
        let mut pos: usize = 0;
        let mut found = false;
        while pos < n && !found
            invariant
                n == hand.len(),
                pos <= n,
                ct == self.current_turn,
                ct < self.players.len(),
                self@ == g,
                hand == self.players@[ct as int].hand@,
                forall|j: int| 0 <= j < pos ==> #[trigger] hand[j] != *card,
                found ==> pos < n && hand[pos as int] == *card,
            decreases n - pos + (if found { 0int } else { 1int }),
        {
            if self.players[ct].hand[pos] == *card {
                found = true;
            } else {
                pos = pos + 1;
            }
        }
        if found {
            proof {
                assert(is_first_pos(hand, *card, pos as int));
                let c = choose|k: int| is_first_pos(hand, *card, k);
                lemma_first_pos_unique(hand, *card, pos as int, c);
                assert(hand.contains(*card));
            }
            self.players[ct].hand.remove(pos);
            proof {
                assert(self@.players =~= g.players.update(
                    ct as int,
                    with_hand(g.players[ct as int], remove_first(hand, *card)),
                ));
            }
            Ok(())
        } else {
            proof {
                assert forall|k: int| !is_first_pos(hand, *card, k) by {}
                assert(!hand.contains(*card));
                assert(remove_first(hand, *card) == hand);
                assert(g.players.update(ct as int, with_hand(g.players[ct as int], hand))
                    =~= g.players);
            }
            Err(EngineError::CardNotFound)
        }
    }
}

impl Game {
    /// The current player draws the top card of the deck (first phase).
    pub fn draw(&mut self, player_uuid: &u128) -> (r: Result<(), EngineError>)
        requires
            valid_turn(old(self)@),
        ensures
            r == draw_outcome(old(self)@, *player_uuid),
            final(self)@ == (if r is Ok {
                after_draw(old(self)@)
            } else {
                old(self)@
            }),
    {
        if self.players[self.current_turn].id != *player_uuid || self.phase != GamePhase::P1 {
            return Err(EngineError::InvalidMove);
        }
        let card = match self.deck.pop() {
            Some(card) => card,
            None => return Err(EngineError::InvalidMove),
        };
        let ct = self.current_turn;
        if ct < self.players.len() {
            self.players[ct].hand.push(card);
            self.phase = GamePhase::P2;
            proof {
                assert(self@.players =~= after_draw(old(self)@).players);
            }
            Ok(())
        } else {
            self.deck.push(card);
            Err(EngineError::InvalidTurn)
        }
    }

    /// The current player takes the last card of their bin (first phase).
    pub fn take_bin(&mut self, player_uuid: &u128) -> (r: Result<(), EngineError>)
        requires
            valid_turn(old(self)@),
        ensures
            r == take_bin_outcome(old(self)@, *player_uuid),
            final(self)@ == (if r is Ok {
                after_take_bin(old(self)@)
            } else {
                old(self)@
            }),
    {
        let ct = self.current_turn;
        if self.players[ct].id != *player_uuid || self.phase != GamePhase::P1 {
            return Err(EngineError::InvalidMove);
        }
        let card = match self.players[ct].bin.pop() {
            Some(card) => card,
            None => {
                proof {
                    assert(self@.players =~= old(self)@.players);
                }
                return Err(EngineError::InvalidMove);
            },
        };
        self.players[ct].hand.push(card);
        self.phase = GamePhase::P2;
        proof {
            assert(self@.players =~= after_take_bin(old(self)@).players);
        }
        Ok(())
    }

    /// The current player discards a card (second phase). The card goes to
    /// the next player's bin and the turn passes; when the deck is empty
    /// the game ends.
    pub fn discard(&mut self, player_uuid: &u128, card: Card) -> (r: Result<
        EndPhaseResponse,
        EngineError,
    >)
        requires
            discard_requires(old(self)@, *player_uuid, card),
        ensures
            match r {
                Ok(resp) => {
                    &&& discard_outcome(old(self)@, *player_uuid, card) is Ok
                    &&& final(self)@ == after_discard(old(self)@, card)
                    &&& resp.next_turn == next_seat(old(self)@) as u8
                    &&& resp.status == Some(
                        if old(self)@.deck.len() > 0 {
                            GameStatus::InProgress
                        } else {
                            GameStatus::Ended
                        },
                    )
                    &&& view_of(resp.winner) == game_winner(final(self)@)
                },
                Err(e) => {
                    &&& discard_outcome(old(self)@, *player_uuid, card) == Err::<(), EngineError>(
                        e,
                    )
                    &&& final(self)@ == old(self)@
                },
            },
    {
        if self.players[self.current_turn].id != *player_uuid || self.phase != GamePhase::P2 {
            return Err(EngineError::InvalidMove);
        }
        if let Err(EngineError::CardNotFound) = self.remove_card(&card) {
            proof {
                assert(self@.players =~= old(self)@.players);
            }
            return Err(EngineError::CardNotFound);
        }
        assert(self@.players.len() == self.players@.len());
        assert(self@.current_turn == old(self)@.current_turn);
        assert(self.current_turn < self.players.len());
        let ghost mid = self@;
        self.current_turn = (self.current_turn + 1) % self.players.len();
        if !self.deck.is_empty() {
            self.phase = GamePhase::P1;
            let nt = self.current_turn;
            self.players[nt].bin.push(card);
            proof {
                assert(self@.players =~= after_discard(old(self)@, card).players);
            }
            Ok(
                EndPhaseResponse {
                    next_turn: self.current_turn as u8,
                    status: Some(GameStatus::InProgress),
                    winner: None,
                },
            )
        } else {
            self.phase = GamePhase::GameEnded;
            proof {
                assert(self@.players =~= after_discard(old(self)@, card).players);
            }
            Ok(
                EndPhaseResponse {
                    next_turn: self.current_turn as u8,
                    status: Some(GameStatus::Ended),
                    winner: self.winner(),
                },
            )
        }
    }

    /// The current player closes the game by discarding a card (second
    /// phase); refused unless the hand holding that card scores at least
    /// `MINIMUM_CLOSE_SCORE`, in which case the card goes back at the end of
    /// the hand.
    pub fn close(&mut self, player_uuid: &u128, card: Card) -> (r: Result<
        EndPhaseResponse,
        EngineError,
    >)
        requires
            close_requires(old(self)@, *player_uuid, card),
        ensures
            match r {
                Ok(resp) => {
                    &&& close_outcome(old(self)@, *player_uuid, card) is Ok
                    &&& final(self)@ == after_close(old(self)@, card)
                    &&& resp.next_turn == next_seat(old(self)@) as u8
                    &&& resp.status == Some(GameStatus::Ended)
                    &&& view_of(resp.winner) == game_winner(final(self)@)
                },
                Err(e) => {
                    &&& close_outcome(old(self)@, *player_uuid, card) == Err::<(), EngineError>(e)
                    &&& final(self)@ == (if on_turn(old(self)@, *player_uuid, GamePhase::P2)
                        && old(self)@.players[old(self)@.current_turn].hand.contains(card) {
                        after_refused_close(old(self)@, card)
                    } else {
                        old(self)@
                    })
                },
            },
    {
        if self.players[self.current_turn].id != *player_uuid || self.phase != GamePhase::P2 {
            return Err(EngineError::InvalidMove);
        }
        let ct = self.current_turn;
        assert(self@.players[ct as int] == self.players@[ct as int]@);
        if !hand_holds(&self.players[ct].hand, &card) {
            return Err(EngineError::CardNotFound);
        }
        let score = self.players[ct].score();
        let removed = self.remove_card(&card);
        assert(removed is Ok);
        assert(self@.players.len() == self.players@.len());
        assert(self@.current_turn == old(self)@.current_turn);
        assert(ct < self.players.len());
        if score < MINIMUM_CLOSE_SCORE {
            let ghost mid = self@;
            assert(self@.players[ct as int] == self.players@[ct as int]@);
            self.players[ct].hand.push(card);
            proof {
                assert(self@.players =~= mid.players.update(
                    ct as int,
                    with_hand(mid.players[ct as int], mid.players[ct as int].hand.push(card)),
                ));
                assert(self@.players =~= after_refused_close(old(self)@, card).players);
            }
            return Err(EngineError::InvalidMove);
        }
        assert(self@.players.len() == self.players@.len());
        assert(self@.current_turn == old(self)@.current_turn);
        assert(self.current_turn < self.players.len());
        self.current_turn = (self.current_turn + 1) % self.players.len();
        self.phase = GamePhase::GameEnded;
        proof {
            assert(self@.players =~= after_close(old(self)@, card).players);
        }
        Ok(
            EndPhaseResponse {
                next_turn: self.current_turn as u8,
                status: Some(GameStatus::Ended),
                winner: self.winner(),
            },
        )
    }
}

// ---------------------------------------------------------------------------
// Leaving, scores, the deck and dealing
// ---------------------------------------------------------------------------

/// The game after the player with this id leaves: if it was their second
/// phase they first discard the first card of their hand; their seat is
/// then removed, and the turn wraps to the first seat if it pointed past
/// the last one.
pub open spec fn after_remove_player(g: GameView, player: u128) -> GameView {
    match seat_of(g.players, player) {
        None => g,
        Some(i) => {
            let g1 = if g.current_turn == i && g.phase == GamePhase::P2 && g.players[i].hand.len()
                > 0 {
                after_discard(g, g.players[i].hand[0])
            } else {
                g
            };
            let ps = g1.players.remove(i);
            GameView {
                id: g1.id,
                players: ps,
                deck: g1.deck,
                current_turn: if g1.current_turn >= ps.len() && ps.len() > 0 {
                    0
                } else {
                    g1.current_turn
                },
                phase: g1.phase,
            }
        },
    }
}

/// What `remove_player` needs to run without overflow: the scores of the
/// discard it may make when that discard ends the game.
pub open spec fn remove_player_requires(g: GameView, player: u128) -> bool {
    match seat_of(g.players, player) {
        None => true,
        Some(i) => (g.current_turn == i && g.phase == GamePhase::P2 && g.players[i].hand.len() > 0
            && g.deck.len() == 0) ==> scores_in_range(
            after_discard(g, g.players[i].hand[0]).players,
        ),
    }
}

pub open spec fn suit_of_index(i: int) -> Suit {
    if i == 0 {
        Suit::Hearts
    } else if i == 1 {
        Suit::Diamonds
    } else if i == 2 {
        Suit::Clubs
    } else {
        Suit::Spades
    }
}

pub open spec fn rank_of_index(i: int) -> Rank {
    if i == 0 {
        Rank::Ace
    } else if i == 1 {
        Rank::Two
    } else if i == 2 {
        Rank::Three
    } else if i == 3 {
        Rank::Four
    } else if i == 4 {
        Rank::Five
    } else if i == 5 {
        Rank::Six
    } else if i == 6 {
        Rank::Seven
    } else if i == 7 {
        Rank::Eight
    } else if i == 8 {
        Rank::Nine
    } else if i == 9 {
        Rank::Ten
    } else if i == 10 {
        Rank::Jack
    } else if i == 11 {
        Rank::Queen
    } else {
        Rank::King
    }
}

/// The 52 cards of a standard deck, suit by suit (hearts, diamonds, clubs,
/// spades), ace to king within a suit.
pub open spec fn full_deck() -> Seq<Card> {
    Seq::new(52, |k: int| Card { suit: suit_of_index(k / 13), rank: rank_of_index(k % 13) })
}

/// The cards a player holds, in hand and in bin.
pub open spec fn player_cards(p: PlayerView) -> Multiset<Card> {
    p.hand.to_multiset().add(p.bin.to_multiset())
}

/// The cards all these players hold.
pub open spec fn players_cards(ps: Seq<PlayerView>) -> Multiset<Card>
    decreases ps.len(),
{
    if ps.len() == 0 {
        Multiset::empty()
    } else {
        players_cards(ps.drop_last()).add(player_cards(ps.last()))
    }
}

/// Every card in play: the deck and what the players hold.
pub open spec fn all_cards(g: GameView) -> Multiset<Card> {
    g.deck.to_multiset().add(players_cards(g.players))
}

/// The hand dealt to the player at seat `i`: four cards popped from the
/// end of the deck after those of the seats before.
pub open spec fn dealt_hand(deck: Seq<Card>, i: int) -> Seq<Card> {
    let top = deck.len() - 4 * i;
    seq![deck[top - 1], deck[top - 2], deck[top - 3], deck[top - 4]]
}

fn suit_at(i: usize) -> (s: Suit)
    requires
        i < 4,
    ensures
        s == suit_of_index(i as int),
{
    if i == 0 {
        Suit::Hearts
    } else if i == 1 {
        Suit::Diamonds
    } else if i == 2 {
        Suit::Clubs
    } else {
        Suit::Spades
    }
}

fn rank_at(i: usize) -> (r: Rank)
    requires
        i < 13,
    ensures
        r == rank_of_index(i as int),
{
    if i == 0 {
        Rank::Ace
    } else if i == 1 {
        Rank::Two
    } else if i == 2 {
        Rank::Three
    } else if i == 3 {
        Rank::Four
    } else if i == 4 {
        Rank::Five
    } else if i == 5 {
        Rank::Six
    } else if i == 6 {
        Rank::Seven
    } else if i == 7 {
        Rank::Eight
    } else if i == 8 {
        Rank::Nine
    } else if i == 9 {
        Rank::Ten
    } else if i == 10 {
        Rank::Jack
    } else if i == 11 {
        Rank::Queen
    } else {
        Rank::King
    }
}

/// Shuffles the cards with the thread's random number generator
/// (`rand::seq::SliceRandom::shuffle` with `rand::thread_rng`). Claimed:
/// the result is a rearrangement of the same cards. Which rearrangement
/// comes out is left open: it rests on chance.
#[verifier::external_body]
fn shuffle_cards(cards: &mut Vec<Card>)
    ensures
        final(cards)@.len() == old(cards)@.len(),
        final(cards)@.to_multiset() == old(cards)@.to_multiset(),
{
    cards.shuffle(&mut rand::thread_rng());
}

/// A game as dealt at the start: the players seated in the given order,
/// four cards each and empty bins, the rest of a full deck of 52 distinct
/// cards in the deck, the first player to move, in the first phase.
pub open spec fn is_fresh_game(g: GameView, ids: Seq<u128>) -> bool {
    &&& g.players.len() == ids.len()
    &&& forall|i: int|
        0 <= i < ids.len() ==> {
            &&& #[trigger] g.players[i].id == ids[i]
            &&& g.players[i].hand.len() == 4
            &&& g.players[i].bin.len() == 0
        }
    &&& g.deck.len() == 52 - 4 * ids.len()
    &&& g.current_turn == 0
    &&& g.phase == GamePhase::P1
    &&& all_cards(g) == full_deck().to_multiset()
    &&& forall|c: Card| #[trigger] all_cards(g).count(c) == 1
    &&& ids.len() > 0 ==> hands_in_shape(g)
}

impl Game {
    /// The player with this id leaves the game.
    pub fn remove_player(&mut self, player_uuid: &u128) -> (r: Result<(), EngineError>)
        requires
            remove_player_requires(old(self)@, *player_uuid),
        ensures
            r == Ok::<(), EngineError>(()),
            final(self)@ == after_remove_player(old(self)@, *player_uuid),
    {
        if let Some(index) = self.player_pos(player_uuid) {
            if self.current_turn == index && self.phase == GamePhase::P2 {
                assert(self@.players[index as int] == self.players@[index as int]@);
                if self.players[index].hand.len() > 0 {
                    let card = self.players[index].hand[0];
                    assert(self@.players[index as int].hand.contains(card)) by {
                        assert(self@.players[index as int].hand[0] == card);
                    }
                    let _ = self.discard(player_uuid, card);
                }
            }
            let ghost mid = self@;
            assert(self@.players.len() == self.players@.len());
            self.players.remove(index);
            proof {
                assert(self@.players =~= mid.players.remove(index as int));
            }
            if self.current_turn >= self.players.len() && !self.players.is_empty() {
                self.current_turn = 0;
            }
        }
        Ok(())
    }

    /// The score of every player, in seating order.
    pub fn scores(&self) -> (r: Vec<i16>)
        requires
            scores_in_range(self@.players),
        ensures
            r@.len() == self@.players.len(),
            forall|i: int| 0 <= i < r@.len() ==> r@[i] == hand_score(#[trigger] self@.players[i].hand),
    {
        let ghost ps = self@.players;
        let mut r: Vec<i16> = Vec::new();
        let n = self.players.len();
        for k in 0..n
            invariant
                n == ps.len(),
                ps == self@.players,
                scores_in_range(ps),
                r@.len() == k,
                forall|i: int| 0 <= i < k ==> r@[i] == hand_score(#[trigger] ps[i].hand),
        {
            assert(ps[k as int] == self.players@[k as int]@);
            assert(score_in_range(ps[k as int].hand));
            r.push(self.players[k].score());
        }
        r
    }

    /// The score of the player with this id.
    pub fn score(&self, player_uuid: &u128) -> (r: Result<i16, EngineError>)
        requires
            match seat_of(self@.players, *player_uuid) {
                Some(i) => score_in_range(self@.players[i].hand),
                None => true,
            },
        ensures
            match seat_of(self@.players, *player_uuid) {
                Some(i) => r == Ok::<i16, EngineError>(hand_score(self@.players[i].hand) as i16),
                None => r == Err::<i16, EngineError>(EngineError::InvalidPlayer),
            },
    {
        match self.player_pos(player_uuid) {
            Some(i) => {
                assert(self@.players[i as int] == self.players@[i as int]@);
                Ok(self.players[i].score())
            },
            None => Err(EngineError::InvalidPlayer),
        }
    }

    /// A shuffled standard deck of 52 cards.
    fn create_deck() -> (r: Vec<Card>)
        ensures
            r@.len() == 52,
            r@.to_multiset() == full_deck().to_multiset(),
    {
        let mut cards: Vec<Card> = Vec::with_capacity(52);
        for si in 0..4usize
            invariant
                cards@ =~= full_deck().take(13 * si),
        {
            for ri in 0..13usize
                invariant
                    si < 4,
                    cards@ =~= full_deck().take(13 * si + ri),
            {
                assert((13 * si + ri) / 13 == si && (13 * si + ri) % 13 == ri) by (nonlinear_arith)
                    requires
                        ri < 13,
                ;
                cards.push(Card { suit: suit_at(si), rank: rank_at(ri) });
                assert(cards@ =~= full_deck().take(13 * si + ri + 1));
            }
        }
        assert(cards@ =~= full_deck());
        shuffle_cards(&mut cards);
        cards
    }

    /// Seats the players in the given order and deals each four cards from
    /// the end of `cards`, the rest becoming the deck; refused when the
    /// cards run out.
    pub fn deal(id: u128, players_uuid: Vec<u128>, cards: Vec<Card>) -> (r: Result<
        Game,
        EngineError,
    >)
        ensures
            r is Ok <==> 4 * players_uuid@.len() <= cards@.len(),
            r is Err ==> r == Err::<Game, EngineError>(EngineError::InsufficientDeck),
            r matches Ok(g) ==> {
                &&& g@.id == id
                &&& g@.players.len() == players_uuid@.len()
                &&& forall|i: int|
                    0 <= i < players_uuid@.len() ==> #[trigger] g@.players[i] == (PlayerView {
                        id: players_uuid@[i],
                        hand: dealt_hand(cards@, i),
                        bin: Seq::empty(),
                    })
                &&& g@.deck == cards@.take(cards@.len() - 4 * players_uuid@.len())
                &&& g@.current_turn == 0
                &&& g@.phase == GamePhase::P1
                &&& all_cards(g@) == cards@.to_multiset()
            },
    {
        let ghost orig = cards@;
        let ghost len = cards@.len() as int;
        let mut deck = cards;
        let mut players: Vec<Player> = Vec::with_capacity(players_uuid.len());
        let n = players_uuid.len();
        for pi in 0..n
            invariant
                n == players_uuid@.len(),
                len == orig.len(),
                orig == cards@,
                4 * pi <= len,
                deck@ == orig.take(len - 4 * pi),
                players@.len() == pi,
                forall|i: int|
                    0 <= i < pi ==> #[trigger] players@[i]@ == (PlayerView {
                        id: players_uuid@[i],
                        hand: dealt_hand(orig, i),
                        bin: Seq::empty(),
                    }),
                players_cards(players_view(players@)).add(deck@.to_multiset())
                    == orig.to_multiset(),
        {
            let uuid = players_uuid[pi];
            let mut hand: Vec<Card> = Vec::new();
            for k in 0..4usize
                invariant
                    len == orig.len(),
                    orig == cards@,
                    n == players_uuid@.len(),
                    pi < n,
                    4 * pi <= len,
                    4 * pi + k <= len,
                    deck@ == orig.take(len - 4 * pi - k),
                    hand@ =~= Seq::new(k as nat, |j: int| orig[len - 4 * pi - 1 - j]),
                    players_cards(players_view(players@)).add(hand@.to_multiset()).add(
                        deck@.to_multiset(),
                    ) == orig.to_multiset(),
            {
                let ghost before = deck@;
                match deck.pop() {
                    Some(card) => {
                        proof {
                            assert(before =~= deck@.push(card));
                        }
                        hand.push(card);
                        proof {
                            assert(deck@ =~= orig.take(len - 4 * pi - k - 1));
                        }
                    },
                    None => {
                        proof {
                            assert(deck@.len() == 0);
                            assert(4 * n > len);
                        }
                        return Err(EngineError::InsufficientDeck);
                    },
                }
            }
            let ghost before_players = players_view(players@);
            let player = Player { id: uuid, hand, bin: vec![] };
            assert(player@.bin =~= Seq::<Card>::empty());
            players.push(player);
            proof {
                assert(player@.hand =~= dealt_hand(orig, pi as int));
                assert(players_view(players@) =~= before_players.push(player@));
                assert(players_view(players@).drop_last() =~= before_players);
                assert(player@.bin.to_multiset() =~= Multiset::empty());
            }
        }
        proof {
            assert(players_view(players@).len() == n);
        }
        Ok(
            Game {
                id,
                players,
                deck,
                current_turn: 0,
                phase: GamePhase::P1,
            },
        )
    }

    /// Starts a game: a freshly shuffled deck dealt four cards to each
    /// player in the given order; refused when 52 cards are too few.
    pub fn new(players_uuid: Vec<u128>) -> (r: Result<Game, EngineError>)
        ensures
            r is Ok <==> 4 * players_uuid@.len() <= 52,
            r is Err ==> r == Err::<Game, EngineError>(EngineError::InsufficientDeck),
            r matches Ok(g) ==> is_fresh_game(g@, players_uuid@),
    {
        proof {
            lemma_full_deck_distinct();
        }
        let deck = Self::create_deck();
        let id = fresh_id();
        Self::deal(id, players_uuid, deck)
    }
}

// ---------------------------------------------------------------------------
// Laws of the game
// ---------------------------------------------------------------------------

/// Every player holds four cards, except the current player during the
/// second phase of their turn, who holds five.
pub open spec fn hands_in_shape(g: GameView) -> bool {
    &&& valid_turn(g)
    &&& (g.phase == GamePhase::P1 || g.phase == GamePhase::P2)
    &&& forall|i: int|
        0 <= i < g.players.len() ==> #[trigger] g.players[i].hand.len() == if i == g.current_turn
            && g.phase == GamePhase::P2 {
            5int
        } else {
            4int
        }
}

/// Every player holds four cards.
pub open spec fn all_hold_four(g: GameView) -> bool {
    forall|i: int| 0 <= i < g.players.len() ==> #[trigger] g.players[i].hand.len() == 4
}

proof fn lemma_players_cards_update(ps: Seq<PlayerView>, i: int, q: PlayerView)
    requires
        0 <= i < ps.len(),
    ensures
        players_cards(ps.update(i, q)).add(player_cards(ps[i])) =~= players_cards(ps).add(
            player_cards(q),
        ),
    decreases ps.len(),
{
    let us = ps.update(i, q);
    let lhs = players_cards(us).add(player_cards(ps[i]));
    let rhs = players_cards(ps).add(player_cards(q));
    let pu = players_cards(us.drop_last());
    let pd = players_cards(ps.drop_last());
    assert(players_cards(us) == pu.add(player_cards(us.last())));
    assert(players_cards(ps) == pd.add(player_cards(ps.last())));
    if i == ps.len() - 1 {
        assert(us.drop_last() =~= ps.drop_last());
        assert forall|x: Card| lhs.count(x) == rhs.count(x) by {
            assert(lhs.count(x) == pu.count(x) + player_cards(q).count(x) + player_cards(
                ps[i],
            ).count(x));
            assert(rhs.count(x) == pd.count(x) + player_cards(ps[i]).count(x) + player_cards(
                q,
            ).count(x));
        }
    } else {
        assert(us.drop_last() =~= ps.drop_last().update(i, q));
        lemma_players_cards_update(ps.drop_last(), i, q);
        assert(ps.drop_last()[i] == ps[i]);
        let last = player_cards(ps.last());
        assert(us.last() == ps.last());
        assert forall|x: Card| lhs.count(x) == rhs.count(x) by {
            assert(pu.add(player_cards(ps[i])).count(x) == pd.add(player_cards(q)).count(x));
            assert(lhs.count(x) == pu.count(x) + last.count(x) + player_cards(ps[i]).count(x));
            assert(rhs.count(x) == pd.count(x) + last.count(x) + player_cards(q).count(x));
        }
    }
}

proof fn lemma_first_pos_exists(s: Seq<Card>, c: Card)
    requires
        s.contains(c),
    ensures
        exists|i: int| is_first_pos(s, c, i),
    decreases s.len(),
{
    if s.drop_last().contains(c) {
        lemma_first_pos_exists(s.drop_last(), c);
        let i = choose|i: int| is_first_pos(s.drop_last(), c, i);
        assert forall|j: int| 0 <= j < i implies #[trigger] s[j] != c by {
            assert(s.drop_last()[j] == s[j]);
        }
        assert(is_first_pos(s, c, i));
    } else {
        let k = choose|k: int| 0 <= k < s.len() && s[k] == c;
        if k < s.len() - 1 {
            assert(s.drop_last()[k] == c);
        }
        assert forall|j: int| 0 <= j < s.len() - 1 implies #[trigger] s[j] != c by {
            assert(s.drop_last()[j] == s[j]);
        }
        assert(is_first_pos(s, c, s.len() - 1));
    }
}

/// Removing the first copy of a card that a hand holds takes exactly one
/// copy of it out of the hand.
pub proof fn lemma_remove_first_cards(s: Seq<Card>, c: Card)
    requires
        s.contains(c),
    ensures
        remove_first(s, c).to_multiset() == s.to_multiset().remove(c),
        remove_first(s, c).len() == s.len() - 1,
{
    lemma_first_pos_exists(s, c);
    let i = choose|i: int| is_first_pos(s, c, i);
    vstd::seq_lib::to_multiset_remove(s, i);
}

proof fn lemma_push_cards(s: Seq<Card>, c: Card)
    ensures
        s.push(c).to_multiset() == s.to_multiset().insert(c),
{
    vstd::seq_lib::to_multiset_build(s, c);
}

proof fn lemma_drop_last_cards(s: Seq<Card>)
    requires
        s.len() > 0,
    ensures
        s.to_multiset() == s.drop_last().to_multiset().insert(s.last()),
{
    assert(s =~= s.drop_last().push(s.last()));
    lemma_push_cards(s.drop_last(), s.last());
}

proof fn lemma_players_cards_update_count(ps: Seq<PlayerView>, i: int, q: PlayerView, x: Card)
    requires
        0 <= i < ps.len(),
    ensures
        players_cards(ps.update(i, q)).count(x) == players_cards(ps).count(x) - player_cards(
            ps[i],
        ).count(x) + player_cards(q).count(x),
{
    lemma_players_cards_update(ps, i, q);
    assert(players_cards(ps.update(i, q)).add(player_cards(ps[i])).count(x) == players_cards(
        ps,
    ).add(player_cards(q)).count(x));
}

/// Drawing moves the top card of the deck into the current hand: no card
/// is created or lost.
pub proof fn lemma_draw_keeps_cards(g: GameView, player: u128)
    requires
        valid_turn(g),
        draw_outcome(g, player) is Ok,
    ensures
        all_cards(after_draw(g)) == all_cards(g),
{
    let ct = g.current_turn;
    let p = g.players[ct];
    let top = g.deck.last();
    let q = with_hand(p, p.hand.push(top));
    let h = after_draw(g);
    lemma_push_cards(p.hand, top);
    lemma_drop_last_cards(g.deck);
    assert forall|x: Card| all_cards(h).count(x) == all_cards(g).count(x) by {
        lemma_players_cards_update_count(g.players, ct, q, x);
        assert(player_cards(q).count(x) == player_cards(p).count(x) + if x == top {
            1int
        } else {
            0int
        });
        assert(g.deck.to_multiset().count(x) == g.deck.drop_last().to_multiset().count(x) + if x
            == top {
            1int
        } else {
            0int
        });
    }
    assert(all_cards(h) =~= all_cards(g));
}

/// Taking from the bin moves a card from the current player's bin into
/// their hand: no card is created or lost.
pub proof fn lemma_take_bin_keeps_cards(g: GameView, player: u128)
    requires
        valid_turn(g),
        take_bin_outcome(g, player) is Ok,
    ensures
        all_cards(after_take_bin(g)) == all_cards(g),
{
    let ct = g.current_turn;
    let p = g.players[ct];
    let top = p.bin.last();
    let q = PlayerView { id: p.id, hand: p.hand.push(top), bin: p.bin.drop_last() };
    let h = after_take_bin(g);
    lemma_push_cards(p.hand, top);
    lemma_drop_last_cards(p.bin);
    assert forall|x: Card| all_cards(h).count(x) == all_cards(g).count(x) by {
        lemma_players_cards_update_count(g.players, ct, q, x);
        assert(player_cards(q).count(x) == player_cards(p).count(x));
    }
    assert(all_cards(h) =~= all_cards(g));
}

/// A discard that keeps the game going moves the card from the current
/// hand to the next player's bin: no card is created or lost. A discard
/// that ends the game takes exactly that card out of play.
pub proof fn lemma_discard_cards(g: GameView, player: u128, card: Card)
    requires
        valid_turn(g),
        discard_outcome(g, player, card) is Ok,
    ensures
        g.deck.len() > 0 ==> all_cards(after_discard(g, card)) == all_cards(g),
        g.deck.len() == 0 ==> all_cards(after_discard(g, card)) == all_cards(g).remove(card),
{
    let ct = g.current_turn;
    let p = g.players[ct];
    let q = with_hand(p, remove_first(p.hand, card));
    let ps = g.players.update(ct, q);
    let h = after_discard(g, card);
    lemma_remove_first_cards(p.hand, card);
    if g.deck.len() > 0 {
        let nt = next_seat(g);
        let r = with_bin(ps[nt], ps[nt].bin.push(card));
        lemma_push_cards(ps[nt].bin, card);
        assert forall|x: Card| all_cards(h).count(x) == all_cards(g).count(x) by {
            lemma_players_cards_update_count(g.players, ct, q, x);
            lemma_players_cards_update_count(ps, nt, r, x);
            assert(player_cards(p).count(x) == player_cards(q).count(x) + if x == card {
                1int
            } else {
                0int
            });
            assert(player_cards(r).count(x) == player_cards(ps[nt]).count(x) + if x == card {
                1int
            } else {
                0int
            });
        }
        assert(all_cards(h) =~= all_cards(g));
    } else {
        assert forall|x: Card| all_cards(h).count(x) == all_cards(g).remove(card).count(x) by {
            lemma_players_cards_update_count(g.players, ct, q, x);
            assert(player_cards(p).count(x) == player_cards(q).count(x) + if x == card {
                1int
            } else {
                0int
            });
        }
        assert(all_cards(h) =~= all_cards(g).remove(card));
    }
}

/// A close takes exactly the closing card out of play; a close refused for
/// its score puts the card back and keeps every card in play.
pub proof fn lemma_close_cards(g: GameView, player: u128, card: Card)
    requires
        valid_turn(g),
        on_turn(g, player, GamePhase::P2),
        g.players[g.current_turn].hand.contains(card),
    ensures
        all_cards(after_close(g, card)) == all_cards(g).remove(card),
        all_cards(after_refused_close(g, card)) == all_cards(g),
{
    let ct = g.current_turn;
    let p = g.players[ct];
    let q = with_hand(p, remove_first(p.hand, card));
    let q2 = with_hand(p, remove_first(p.hand, card).push(card));
    lemma_remove_first_cards(p.hand, card);
    lemma_push_cards(remove_first(p.hand, card), card);
    let c = after_close(g, card);
    let f = after_refused_close(g, card);
    assert forall|x: Card| all_cards(c).count(x) == all_cards(g).remove(card).count(x) by {
        lemma_players_cards_update_count(g.players, ct, q, x);
        assert(player_cards(p).count(x) == player_cards(q).count(x) + if x == card {
            1int
        } else {
            0int
        });
    }
    assert(all_cards(c) =~= all_cards(g).remove(card));
    assert forall|x: Card| all_cards(f).count(x) == all_cards(g).count(x) by {
        lemma_players_cards_update_count(g.players, ct, q2, x);
        assert(player_cards(q2).count(x) == player_cards(p).count(x));
    }
    assert(all_cards(f) =~= all_cards(g));
}

/// Taking a card (from the deck or the bin) gives the current player the
/// fifth card of the second phase; everyone else keeps four.
pub proof fn lemma_take_keeps_shape(g: GameView, player: u128)
    requires
        hands_in_shape(g),
    ensures
        draw_outcome(g, player) is Ok ==> hands_in_shape(after_draw(g)),
        take_bin_outcome(g, player) is Ok ==> hands_in_shape(after_take_bin(g)),
{
    if draw_outcome(g, player) is Ok {
        let h = after_draw(g);
        assert forall|i: int| 0 <= i < h.players.len() implies #[trigger] h.players[i].hand.len()
            == if i == h.current_turn && h.phase == GamePhase::P2 {
            5int
        } else {
            4int
        } by {
            assert(g.players[i].hand.len() == if i == g.current_turn && g.phase == GamePhase::P2 {
                5int
            } else {
                4int
            });
        }
    }
    if take_bin_outcome(g, player) is Ok {
        let h = after_take_bin(g);
        assert forall|i: int| 0 <= i < h.players.len() implies #[trigger] h.players[i].hand.len()
            == if i == h.current_turn && h.phase == GamePhase::P2 {
            5int
        } else {
            4int
        } by {
            assert(g.players[i].hand.len() == if i == g.current_turn && g.phase == GamePhase::P2 {
                5int
            } else {
                4int
            });
        }
    }
}

/// A discard brings the current player back to four cards and hands the
/// first phase to the next player; when it ends the game, every player
/// holds four cards. A close likewise leaves four cards in every hand,
/// and a refused close changes no hand's size.
pub proof fn lemma_discard_keeps_shape(g: GameView, player: u128, card: Card)
    requires
        hands_in_shape(g),
    ensures
        discard_outcome(g, player, card) is Ok && g.deck.len() > 0 ==> hands_in_shape(
            after_discard(g, card),
        ),
        discard_outcome(g, player, card) is Ok ==> all_hold_four(after_discard(g, card)),
        close_outcome(g, player, card) is Ok ==> all_hold_four(after_close(g, card)),
        (on_turn(g, player, GamePhase::P2) && g.players[g.current_turn].hand.contains(card))
            ==> hands_in_shape(after_refused_close(g, card)),
{
    let ct = g.current_turn;
    if on_turn(g, player, GamePhase::P2) && g.players[ct].hand.contains(card) {
        lemma_remove_first_cards(g.players[ct].hand, card);
        assert(g.players[ct].hand.len() == 5);
        let h = after_discard(g, card);
        assert forall|i: int| 0 <= i < h.players.len() implies #[trigger] h.players[i].hand.len()
            == 4 by {
            assert(g.players[i].hand.len() == if i == g.current_turn && g.phase == GamePhase::P2 {
                5int
            } else {
                4int
            });
        }
        let c = after_close(g, card);
        assert forall|i: int| 0 <= i < c.players.len() implies #[trigger] c.players[i].hand.len()
            == 4 by {
            assert(g.players[i].hand.len() == if i == g.current_turn && g.phase == GamePhase::P2 {
                5int
            } else {
                4int
            });
        }
        let f = after_refused_close(g, card);
        assert forall|i: int| 0 <= i < f.players.len() implies #[trigger] f.players[i].hand.len()
            == if i == f.current_turn && f.phase == GamePhase::P2 {
            5int
        } else {
            4int
        } by {
            assert(g.players[i].hand.len() == if i == g.current_turn && g.phase == GamePhase::P2 {
                5int
            } else {
                4int
            });
        }
        if g.deck.len() > 0 {
            assert(0 <= next_seat(g) < g.players.len());
        }
    }
}

/// The position of a card in the standard deck order.
pub open spec fn card_index(c: Card) -> int {
    let s: int = match c.suit {
        Suit::Hearts => 0,
        Suit::Diamonds => 1,
        Suit::Clubs => 2,
        Suit::Spades => 3,
    };
    let r: int = match c.rank {
        Rank::Ace => 0,
        Rank::Two => 1,
        Rank::Three => 2,
        Rank::Four => 3,
        Rank::Five => 4,
        Rank::Six => 5,
        Rank::Seven => 6,
        Rank::Eight => 7,
        Rank::Nine => 8,
        Rank::Ten => 9,
        Rank::Jack => 10,
        Rank::Queen => 11,
        Rank::King => 12,
    };
    13 * s + r
}

/// The standard deck holds every one of the 52 cards exactly once.
pub proof fn lemma_full_deck_distinct()
    ensures
        full_deck().no_duplicates(),
        forall|c: Card| full_deck().contains(c),
        forall|c: Card| #[trigger] full_deck().to_multiset().count(c) == 1,
{
    assert forall|k: int| 0 <= k < 52 implies card_index(#[trigger] full_deck()[k]) == k by {
        assert(k / 13 * 13 + k % 13 == k);
    }
    assert forall|i: int, j: int| 0 <= i < 52 && 0 <= j < 52 && i != j implies full_deck()[i]
        != full_deck()[j] by {
        assert(card_index(full_deck()[i]) == i);
        assert(card_index(full_deck()[j]) == j);
    }
    assert forall|c: Card| full_deck().contains(c) by {
        let k = card_index(c);
        assert(k / 13 * 13 + k % 13 == k);
        assert(full_deck()[k] == c);
    }
    full_deck().lemma_multiset_has_no_duplicates();
}

/// The game after a round: the current player takes a card (from the bin
/// when `from_bin`, else from the deck) and discards `card`.
pub open spec fn round_after(g: GameView, from_bin: bool, card: Card) -> GameView {
    let h = if from_bin {
        after_take_bin(g)
    } else {
        after_draw(g)
    };
    after_discard(h, card)
}

/// Both moves of that round are accepted.
pub open spec fn round_ok(g: GameView, from_bin: bool, card: Card) -> bool {
    let player = g.players[g.current_turn].id;
    if from_bin {
        take_bin_outcome(g, player) is Ok && discard_outcome(after_take_bin(g), player, card) is Ok
    } else {
        draw_outcome(g, player) is Ok && discard_outcome(after_draw(g), player, card) is Ok
    }
}

/// The game after a run of rounds, each given as (from the bin?, card).
pub open spec fn play(g: GameView, rounds: Seq<(bool, Card)>) -> GameView
    decreases rounds.len(),
{
    if rounds.len() == 0 {
        g
    } else {
        let last = rounds.last();
        round_after(play(g, rounds.drop_last()), last.0, last.1)
    }
}

/// Every round of the run is accepted.
pub open spec fn plays_ok(g: GameView, rounds: Seq<(bool, Card)>) -> bool
    decreases rounds.len(),
{
    if rounds.len() == 0 {
        true
    } else {
        let last = rounds.last();
        plays_ok(g, rounds.drop_last()) && round_ok(play(g, rounds.drop_last()), last.0, last.1)
    }
}

/// The rounds of a run that draw from the deck.
pub open spec fn draws(rounds: Seq<(bool, Card)>) -> nat
    decreases rounds.len(),
{
    if rounds.len() == 0 {
        0
    } else {
        draws(rounds.drop_last()) + if rounds.last().0 {
            0nat
        } else {
            1nat
        }
    }
}

/// A round that draws takes one card from the deck, a round that takes
/// from the bin leaves the deck as it was, and the round's discard ends the
/// game exactly when the deck is then empty; otherwise the next player
/// starts their first phase.
pub proof fn lemma_round_progress(g: GameView, from_bin: bool, card: Card)
    requires
        valid_turn(g),
        round_ok(g, from_bin, card),
    ensures
        round_after(g, from_bin, card).deck.len() + (if from_bin {
            0int
        } else {
            1int
        }) == g.deck.len(),
        round_after(g, from_bin, card).phase == GamePhase::GameEnded <==> round_after(
            g,
            from_bin,
            card,
        ).deck.len() == 0,
        round_after(g, from_bin, card).phase != GamePhase::GameEnded ==> round_after(
            g,
            from_bin,
            card,
        ).phase == GamePhase::P1 && valid_turn(round_after(g, from_bin, card)),
{
    let h = if from_bin {
        after_take_bin(g)
    } else {
        after_draw(g)
    };
    assert(h.players.len() == g.players.len());
    assert(0 <= next_seat(h) < h.players.len());
}

/// Bounded play: in a run of accepted rounds from a game in its first
/// phase, each round that draws takes one card from the deck, so there are
/// at most as many as the deck holds; the game has ended exactly when the
/// deck is empty after a round, and so at the latest with the round that
/// draws the deck's last card. No round is accepted after that.
pub proof fn lemma_play_bounded(g: GameView, rounds: Seq<(bool, Card)>)
    requires
        valid_turn(g),
        g.phase == GamePhase::P1,
        plays_ok(g, rounds),
    ensures
        play(g, rounds).deck.len() + draws(rounds) == g.deck.len(),
        draws(rounds) <= g.deck.len(),
        rounds.len() > 0 ==> (play(g, rounds).phase == GamePhase::GameEnded <==> play(
            g,
            rounds,
        ).deck.len() == 0),
        draws(rounds) == g.deck.len() && rounds.len() > 0 ==> play(g, rounds).phase
            == GamePhase::GameEnded,
        play(g, rounds).phase != GamePhase::GameEnded ==> play(g, rounds).phase == GamePhase::P1
            && valid_turn(play(g, rounds)),
    decreases rounds.len(),
{
    if rounds.len() > 0 {
        let rest = rounds.drop_last();
        let last = rounds.last();
        lemma_play_bounded(g, rest);
        let p = play(g, rest);
        assert(round_ok(p, last.0, last.1));
        assert(p.phase != GamePhase::GameEnded);
        lemma_round_progress(p, last.0, last.1);
    }
}

/// A game in its first phase with cards in the deck accepts a round that
/// draws and then discards any card of the hand so taken.
pub proof fn lemma_draw_round_accepted(g: GameView, card: Card)
    requires
        valid_turn(g),
        g.phase == GamePhase::P1,
        g.deck.len() > 0,
        after_draw(g).players[g.current_turn].hand.contains(card),
    ensures
        round_ok(g, false, card),
{
}

/// Every round at an even place of the run draws from the deck.
pub open spec fn even_rounds_draw(rounds: Seq<(bool, Card)>) -> bool {
    forall|i: int| 0 <= i < rounds.len() && i % 2 == 0 ==> !(#[trigger] rounds[i]).0
}

proof fn lemma_even_rounds_draws(rounds: Seq<(bool, Card)>)
    requires
        even_rounds_draw(rounds),
    ensures
        2 * draws(rounds) >= rounds.len(),
    decreases rounds.len(),
{
    if rounds.len() > 0 {
        let rest = rounds.drop_last();
        assert(even_rounds_draw(rest)) by {
            assert forall|i: int| 0 <= i < rest.len() && i % 2 == 0 implies !(
            #[trigger] rest[i]).0 by {
                assert(rest[i] == rounds[i]);
            }
        }
        lemma_even_rounds_draws(rest);
        let k = rounds.len() - 1;
        if k % 2 == 0 {
            assert(rounds[k] == rounds.last());
        } else {
            assert(2 * draws(rest) != k);
        }
    }
}

/// Play in which every second round draws (the others may take from the
/// bin) ends quickly: from a game in its first phase whose deck holds `d`
/// cards, an accepted run of such rounds has at most `2 d` rounds, and the
/// game has ended once it has `2 d - 1` of them.
pub proof fn lemma_alternating_play_ends(g: GameView, rounds: Seq<(bool, Card)>)
    requires
        valid_turn(g),
        g.phase == GamePhase::P1,
        plays_ok(g, rounds),
        even_rounds_draw(rounds),
    ensures
        rounds.len() <= 2 * g.deck.len(),
        rounds.len() > 0 && rounds.len() + 1 >= 2 * g.deck.len() ==> play(g, rounds).phase
            == GamePhase::GameEnded,
{
    lemma_play_bounded(g, rounds);
    lemma_even_rounds_draws(rounds);
}

/// An ended game refuses every move.
pub proof fn lemma_ended_game_refuses_moves(g: GameView, player: u128, card: Card)
    requires
        g.phase == GamePhase::GameEnded,
    ensures
        draw_outcome(g, player) == Err::<(), EngineError>(EngineError::InvalidMove),
        take_bin_outcome(g, player) == Err::<(), EngineError>(EngineError::InvalidMove),
        discard_outcome(g, player, card) == Err::<(), EngineError>(EngineError::InvalidMove),
        close_outcome(g, player, card) == Err::<(), EngineError>(EngineError::InvalidMove),
{
}

/// When a player leaves and others remain, the turn still points at a
/// seat.
pub proof fn lemma_leaving_keeps_turn_valid(g: GameView, player: u128)
    requires
        0 <= g.current_turn,
        after_remove_player(g, player).players.len() > 0,
    ensures
        seat_of(g.players, player) is Some ==> valid_turn(after_remove_player(g, player)),
{
}

/// A player leaving: when they hold no seat nothing changes; otherwise
/// their first seat goes (after the discard of their first card when it
/// was their second phase), every other player keeps their hand and their
/// order, and the turn still points at a seat unless nobody is left.
pub proof fn lemma_remove_player_law(g: GameView, player: u128)
    requires
        g.players.len() == 0 || valid_turn(g),
    ensures
        seat_of(g.players, player) is None ==> after_remove_player(g, player) == g,
        seat_of(g.players, player) matches Some(i) ==> {
            let a = after_remove_player(g, player);
            &&& a.players.len() == g.players.len() - 1
            &&& forall|k: int|
                0 <= k < a.players.len() ==> {
                    &&& (#[trigger] a.players[k]).id == g.players[if k < i {
                        k
                    } else {
                        k + 1
                    }].id
                    &&& a.players[k].hand == g.players[if k < i {
                        k
                    } else {
                        k + 1
                    }].hand
                }
        },
        after_remove_player(g, player).players.len() == 0 || valid_turn(
            after_remove_player(g, player),
        ),
{
    if let Some(i) = seat_of(g.players, player) {
        let w = choose|i: int| is_first_seat(g.players, player, i);
        assert(is_first_seat(g.players, player, w));
        assert(w == i);
        let a = after_remove_player(g, player);
        let g1 = if g.current_turn == i && g.phase == GamePhase::P2 && g.players[i].hand.len() > 0 {
            after_discard(g, g.players[i].hand[0])
        } else {
            g
        };
        assert(g1.players.len() == g.players.len());
        assert forall|k: int| 0 <= k < g.players.len() && k != i implies #[trigger] g1.players[k].id
            == g.players[k].id && g1.players[k].hand == g.players[k].hand by {}
        assert forall|k: int| 0 <= k < a.players.len() implies {
            &&& (#[trigger] a.players[k]).id == g.players[if k < i {
                k
            } else {
                k + 1
            }].id
            &&& a.players[k].hand == g.players[if k < i {
                k
            } else {
                k + 1
            }].hand
        } by {
            if k < i {
                assert(a.players[k] == g1.players[k]);
            } else {
                assert(a.players[k] == g1.players[k + 1]);
            }
        }
        if a.players.len() > 0 {
            lemma_leaving_keeps_turn_valid(g, player);
        }
    }
}

/// All seats hold different players.
pub open spec fn ids_distinct(ps: Seq<PlayerView>) -> bool {
    forall|i: int, j: int|
        0 <= i < ps.len() && 0 <= j < ps.len() && i != j ==> #[trigger] ps[i].id != #[trigger] ps[j].id
}

/// When the players are all different, a player who leaves holds no seat
/// afterwards, and everyone else keeps theirs in the same order.
pub proof fn lemma_leaving_unseats_player(g: GameView, player: u128)
    requires
        ids_distinct(g.players),
        valid_turn(g),
    ensures
        seat_of(after_remove_player(g, player).players, player) is None,
        after_remove_player(g, player).players.map_values(|p: PlayerView| p.id)
            == without_id(g.players.map_values(|p: PlayerView| p.id), player),
{
    let ids = g.players.map_values(|p: PlayerView| p.id);
    match seat_of(g.players, player) {
        None => {
            assert forall|k: int| 0 <= k < g.players.len() implies #[trigger] g.players[k].id
                != player by {
                if g.players[k].id == player {
                    lemma_first_seat_exists(g.players, player, k);
                }
            }
            lemma_without_absent(ids, player);
        },
        Some(i) => {
            let g1 = if g.current_turn == i && g.phase == GamePhase::P2 && g.players[i].hand.len()
                > 0 {
                after_discard(g, g.players[i].hand[0])
            } else {
                g
            };
            let ids1 = g1.players.map_values(|p: PlayerView| p.id);
            assert(ids1 =~= ids);
            let ps = g1.players.remove(i);
            assert forall|k: int| 0 <= k < ps.len() implies #[trigger] ps[k].id != player by {
                if k < i {
                    assert(ps[k].id == g1.players[k].id);
                    assert(g1.players[k].id == g.players[k].id);
                } else {
                    assert(ps[k].id == g1.players[k + 1].id);
                    assert(g1.players[k + 1].id == g.players[k + 1].id);
                }
            }
            assert forall|k: int| !is_first_seat(ps, player, k) by {}
            lemma_without_single(ids, player, i);
            assert(ps.map_values(|p: PlayerView| p.id) =~= ids.remove(i));
        },
    }
}

/// A list of ids without every copy of one id.
pub open spec fn without_id(ids: Seq<u128>, id: u128) -> Seq<u128>
    decreases ids.len(),
{
    if ids.len() == 0 {
        ids
    } else if ids.last() == id {
        without_id(ids.drop_last(), id)
    } else {
        without_id(ids.drop_last(), id).push(ids.last())
    }
}

proof fn lemma_first_seat_exists(ps: Seq<PlayerView>, id: u128, k: int)
    requires
        0 <= k < ps.len(),
        ps[k].id == id,
    ensures
        exists|i: int| is_first_seat(ps, id, i),
    decreases k,
{
    if forall|j: int| 0 <= j < k ==> #[trigger] ps[j].id != id {
        assert(is_first_seat(ps, id, k));
    } else {
        let j = choose|j: int| 0 <= j < k && #[trigger] ps[j].id == id;
        lemma_first_seat_exists(ps, id, j);
    }
}

proof fn lemma_without_absent(ids: Seq<u128>, id: u128)
    requires
        forall|k: int| 0 <= k < ids.len() ==> #[trigger] ids[k] != id,
    ensures
        without_id(ids, id) == ids,
    decreases ids.len(),
{
    if ids.len() > 0 {
        lemma_without_absent(ids.drop_last(), id);
        assert(ids.drop_last().push(ids.last()) =~= ids);
    }
}

proof fn lemma_without_single(ids: Seq<u128>, id: u128, i: int)
    requires
        0 <= i < ids.len(),
        ids[i] == id,
        forall|k: int| 0 <= k < ids.len() && k != i ==> #[trigger] ids[k] != id,
    ensures
        without_id(ids, id) == ids.remove(i),
    decreases ids.len(),
{
    if i == ids.len() - 1 {
        lemma_without_absent(ids.drop_last(), id);
        assert(ids.remove(i) =~= ids.drop_last());
    } else {
        lemma_without_single(ids.drop_last(), id, i);
        assert(ids.remove(i) =~= ids.drop_last().remove(i).push(ids.last()));
    }
}

/// The winner of a game, when there is one, is the one player with a
/// positive score above every other player's.
pub proof fn lemma_winner_leads_alone(ps: Seq<PlayerView>)
    ensures
        sole_leader(ps) matches Some(w) ==> exists|i: int|
            leads_alone(ps, i) && ps[i] == w && forall|j: int|
                #![trigger leads_alone(ps, j)]
                leads_alone(ps, j) ==> j == i,
{
    if exists|i: int| leads_alone(ps, i) {
        let i = choose|i: int| leads_alone(ps, i);
        assert forall|j: int| #![trigger leads_alone(ps, j)] leads_alone(ps, j) implies j == i by {
            if j != i {
                assert(hand_score(ps[j].hand) < hand_score(ps[i].hand));
                assert(hand_score(ps[i].hand) < hand_score(ps[j].hand));
            }
        }
    }
}

/// Taking from the bin takes its last card, the one most recently
/// discarded to the player: it ends their hand, the bin loses exactly that
/// card, the second phase begins, and nothing else changes.
pub proof fn lemma_take_bin_takes_last_discard(g: GameView, player: u128)
    requires
        valid_turn(g),
        take_bin_outcome(g, player) is Ok,
    ensures
        ({
            let ct = g.current_turn;
            let h = after_take_bin(g);
            &&& g.players[ct].bin.len() > 0
            &&& h.players.len() == g.players.len()
            &&& h.players[ct].id == g.players[ct].id
            &&& h.players[ct].hand == g.players[ct].hand.push(
                g.players[ct].bin[g.players[ct].bin.len() - 1],
            )
            &&& h.players[ct].bin == g.players[ct].bin.subrange(
                0,
                g.players[ct].bin.len() - 1,
            )
            &&& forall|j: int| 0 <= j < g.players.len() && j != ct ==> #[trigger] h.players[j]
                == g.players[j]
            &&& h.deck == g.deck
            &&& h.current_turn == ct
            &&& h.phase == GamePhase::P2
        }),
{
    let ct = g.current_turn;
    let b = g.players[ct].bin;
    assert(b.drop_last() =~= b.subrange(0, b.len() - 1));
}

/// A discard that keeps the game going puts the card on top of the bin of
/// the next seat, `(turn + 1) % players`, whose turn it now is in the first
/// phase; the card leaves the discarding hand (its first copy), and every
/// other bin and hand is as it was.
pub proof fn lemma_discard_feeds_next_seat(g: GameView, player: u128, card: Card)
    requires
        valid_turn(g),
        discard_outcome(g, player, card) is Ok,
        g.deck.len() > 0,
    ensures
        ({
            let ct = g.current_turn;
            let n = g.players.len();
            let nt = (ct + 1) % (n as int);
            let h = after_discard(g, card);
            &&& h.players.len() == n
            &&& h.current_turn == nt
            &&& h.phase == GamePhase::P1
            &&& h.deck == g.deck
            &&& h.players[nt].bin == g.players[nt].bin.push(card)
            &&& h.players[ct].hand == remove_first(g.players[ct].hand, card)
            &&& forall|j: int| 0 <= j < n && j != nt ==> #[trigger] h.players[j].bin
                == g.players[j].bin
            &&& forall|j: int| 0 <= j < n && j != ct ==> #[trigger] h.players[j].hand
                == g.players[j].hand
            &&& forall|j: int| 0 <= j < n ==> #[trigger] h.players[j].id == g.players[j].id
        }),
{
    let ct = g.current_turn;
    let n = g.players.len();
    assert(0 <= (ct + 1) % (n as int) < n);
}

/// The winner of an ended game is a seated player whose score is positive
/// and above every other player's; an ended game in which such a player
/// exists has one, a game in which no score is positive has none, and a
/// game still under way has none.
pub proof fn lemma_winner_is_positive_top(g: GameView)
    ensures
        game_winner(g) matches Some(w) ==> {
            &&& g.phase == GamePhase::GameEnded
            &&& hand_score(w.hand) > 0
            &&& exists|i: int|
                0 <= i < g.players.len() && g.players[i] == w && forall|j: int|
                    0 <= j < g.players.len() && j != i ==> #[trigger] hand_score(
                        g.players[j].hand,
                    ) < hand_score(w.hand)
        },
        (g.phase == GamePhase::GameEnded && exists|i: int|
            0 <= i < g.players.len() && hand_score(g.players[i].hand) > 0 && forall|j: int|
                0 <= j < g.players.len() && j != i ==> #[trigger] hand_score(g.players[j].hand)
                    < hand_score(g.players[i].hand)) ==> game_winner(g) is Some,
        (forall|j: int|
            0 <= j < g.players.len() ==> #[trigger] hand_score(g.players[j].hand) <= 0)
            ==> game_winner(g) is None,
        g.phase != GamePhase::GameEnded ==> game_winner(g) is None,
{
    let ps = g.players;
    if exists|i: int| leads_alone(ps, i) {
        let i = choose|i: int| leads_alone(ps, i);
        assert(hand_score(ps[i].hand) > 0);
    }
    if g.phase == GamePhase::GameEnded && exists|i: int|
        0 <= i < ps.len() && hand_score(ps[i].hand) > 0 && forall|j: int|
            0 <= j < ps.len() && j != i ==> #[trigger] hand_score(ps[j].hand) < hand_score(
                ps[i].hand,
            ) {
        let i = choose|i: int|
            0 <= i < ps.len() && hand_score(ps[i].hand) > 0 && forall|j: int|
                0 <= j < ps.len() && j != i ==> #[trigger] hand_score(ps[j].hand) < hand_score(
                    ps[i].hand,
                );
        assert(leads_alone(ps, i));
    }
    if forall|j: int| 0 <= j < ps.len() ==> #[trigger] hand_score(ps[j].hand) <= 0 {
        assert forall|i: int| !leads_alone(ps, i) by {
            if 0 <= i < ps.len() {
                assert(hand_score(ps[i].hand) <= 0);
            }
        }
    }
}

/// Where the turn goes when a player leaves: the turn is first passed on
/// to the next seat when the leaver was in the second phase of their own
/// turn (they discard their first card); then, if it points past the last
/// remaining seat, it wraps round to the first seat, and otherwise it
/// stays on the same index.
pub proof fn lemma_leaving_turn_wraps(g: GameView, player: u128)
    requires
        valid_turn(g),
        seat_of(g.players, player) is Some,
    ensures
        ({
            let i = seat_of(g.players, player)->0;
            let n = g.players.len();
            let a = after_remove_player(g, player);
            let t = if g.current_turn == i && g.phase == GamePhase::P2 && g.players[i].hand.len()
                > 0 {
                (g.current_turn + 1) % (n as int)
            } else {
                g.current_turn
            };
            &&& a.players.len() == n - 1
            &&& (n > 1 && t >= n - 1) ==> a.current_turn == 0
            &&& t < n - 1 ==> a.current_turn == t
            &&& n == 1 ==> a.current_turn == t
        }),
{
    let i = seat_of(g.players, player)->0;
    let w = choose|k: int| is_first_seat(g.players, player, k);
    assert(is_first_seat(g.players, player, w));
}

/// Drawing takes the top card of the deck, its last one: it ends the
/// current hand, the deck loses exactly that card, the second phase
/// begins, and nothing else changes.
pub proof fn lemma_draw_takes_top_card(g: GameView, player: u128)
    requires
        valid_turn(g),
        draw_outcome(g, player) is Ok,
    ensures
        ({
            let ct = g.current_turn;
            let h = after_draw(g);
            &&& g.deck.len() > 0
            &&& h.players.len() == g.players.len()
            &&& h.players[ct].hand == g.players[ct].hand.push(g.deck[g.deck.len() - 1])
            &&& h.players[ct].bin == g.players[ct].bin
            &&& h.players[ct].id == g.players[ct].id
            &&& h.deck == g.deck.subrange(0, g.deck.len() - 1)
            &&& forall|j: int| 0 <= j < g.players.len() && j != ct ==> #[trigger] h.players[j]
                == g.players[j]
            &&& h.current_turn == ct
            &&& h.phase == GamePhase::P2
        }),
{
    assert(g.deck.drop_last() =~= g.deck.subrange(0, g.deck.len() - 1));
}

/// A close ends the game: the closing card leaves the hand (its first
/// copy), the turn passes to `(turn + 1) % players`, and every bin, every
/// other hand and the deck are as they were.
pub proof fn lemma_close_ends_the_game(g: GameView, player: u128, card: Card)
    requires
        valid_turn(g),
        close_outcome(g, player, card) is Ok,
    ensures
        ({
            let ct = g.current_turn;
            let n = g.players.len();
            let h = after_close(g, card);
            &&& hand_score(g.players[ct].hand) >= MINIMUM_CLOSE_SCORE
            &&& g.players[ct].hand.contains(card)
            &&& h.phase == GamePhase::GameEnded
            &&& h.current_turn == (ct + 1) % (n as int)
            &&& h.players.len() == n
            &&& h.players[ct].hand == remove_first(g.players[ct].hand, card)
            &&& forall|j: int| 0 <= j < n ==> #[trigger] h.players[j].bin == g.players[j].bin
            &&& forall|j: int| 0 <= j < n && j != ct ==> #[trigger] h.players[j].hand
                == g.players[j].hand
            &&& h.deck == g.deck
        }),
{
}

/// Removing a card the hand holds takes out its first copy: the cards
/// before it stay in order, and so do the cards after it.
pub proof fn lemma_remove_first_takes_first_copy(s: Seq<Card>, c: Card)
    requires
        s.contains(c),
    ensures
        exists|i: int|
            0 <= i < s.len() && s[i] == c && (forall|j: int| 0 <= j < i ==> #[trigger] s[j] != c)
                && remove_first(s, c) == s.subrange(0, i) + s.subrange(i + 1, s.len() as int),
        remove_first(s, c).len() == s.len() - 1,
{
    lemma_first_pos_exists(s, c);
    let i = choose|i: int| is_first_pos(s, c, i);
    assert(s.remove(i) =~= s.subrange(0, i) + s.subrange(i + 1, s.len() as int));
    assert(forall|j: int| 0 <= j < i ==> #[trigger] s[j] != c);
}

} // verus!
