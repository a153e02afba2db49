//! The browser client's view of a game: its errors, and the scores it
//! works out from the card texts it is sent.

use vstd::prelude::*;
use vstd::utf8::encode_utf8;
use crate::card::{Card, Suit, card_text, lemma_card_text_roundtrip, rank_points};
use crate::game::{
    hand_points, hand_score, is_first_pos, lemma_first_pos_unique, lemma_hand_score_order_free,
    max2, remove_first, suit_points,
};
use crate::session::cards_text;
use crate::text::{byte_len, same_text};

verus! {

/// Why the client could not reach or talk to a game.
#[derive(Debug, Clone)]
pub enum GameError {
    CreationFailed(String),
    JoinHttpFailed(String),
    JoinFailed(String),
    SendFailed(String),
}

/// The text of a client error.
pub open spec fn game_error_text(e: GameError) -> Seq<char> {
    match e {
        GameError::CreationFailed(m) => "Failed to create game: "@ + m@,
        GameError::JoinHttpFailed(m) => "Failed to join game: "@ + m@,
        GameError::JoinFailed(m) => "Failed to connect to game: "@ + m@,
        GameError::SendFailed(m) => "Failed to send payload: "@ + m@,
    }
}

impl GameError {
    /// The text of this error.
    pub fn message(&self) -> (r: String)
        ensures
            r@ == game_error_text(*self),
    {
        match self {
            GameError::CreationFailed(m) => String::from_str("Failed to create game: ").concat(
                m.as_str(),
            ),
            GameError::JoinHttpFailed(m) => String::from_str("Failed to join game: ").concat(
                m.as_str(),
            ),
            GameError::JoinFailed(m) => String::from_str("Failed to connect to game: ").concat(
                m.as_str(),
            ),
            GameError::SendFailed(m) => String::from_str("Failed to send payload: ").concat(
                m.as_str(),
            ),
        }
    }
}

/// A card text the client can cut after its first byte: shorter than two
/// bytes, or starting with an ASCII character.
pub open spec fn sliceable(t: Seq<char>) -> bool {
    encode_utf8(t).len() < 2 || (t[0] as u32) < 0x80
}

/// The text after the suit letter is this one character.
pub open spec fn rank_is(t: Seq<char>, c: char) -> bool {
    t.len() == 2 && t[1] == c
}

/// Points the client gives a card text: none below two bytes; else by the
/// text after the suit letter: `A` 11, `2` to `9` their value, anything
/// else 10.
pub open spec fn text_points(t: Seq<char>) -> int {
    if encode_utf8(t).len() < 2 {
        0
    } else if rank_is(t, 'A') {
        11
    } else if rank_is(t, '2') {
        2
    } else if rank_is(t, '3') {
        3
    } else if rank_is(t, '4') {
        4
    } else if rank_is(t, '5') {
        5
    } else if rank_is(t, '6') {
        6
    } else if rank_is(t, '7') {
        7
    } else if rank_is(t, '8') {
        8
    } else if rank_is(t, '9') {
        9
    } else {
        10
    }
}

/// The suit slot the client counts a card text in (hearts 0, diamonds 1,
/// spades 2, clubs 3); none below two bytes or for another first letter.
pub open spec fn text_suit(t: Seq<char>) -> Option<int> {
    if encode_utf8(t).len() < 2 {
        None
    } else if t[0] == 'H' {
        Some(0)
    } else if t[0] == 'D' {
        Some(1)
    } else if t[0] == 'S' {
        Some(2)
    } else if t[0] == 'C' {
        Some(3)
    } else {
        None
    }
}

/// Points of the card texts of one suit slot.
pub open spec fn text_suit_points(hand: Seq<Seq<char>>, slot: int) -> int
    decreases hand.len(),
{
    if hand.len() == 0 {
        0
    } else {
        text_suit_points(hand.drop_last(), slot) + if text_suit(hand.last()) == Some(slot) {
            text_points(hand.last())
        } else {
            0
        }
    }
}

pub open spec fn text_total(hand: Seq<Seq<char>>) -> int {
    text_suit_points(hand, 0) + text_suit_points(hand, 1) + text_suit_points(hand, 2)
        + text_suit_points(hand, 3)
}

pub open spec fn text_best(hand: Seq<Seq<char>>) -> int {
    max2(
        max2(text_suit_points(hand, 0), text_suit_points(hand, 1)),
        max2(text_suit_points(hand, 2), text_suit_points(hand, 3)),
    )
}

/// The score the client works out for a hand of card texts: the points of
/// the richest suit minus those of the other cards.
pub open spec fn text_score(hand: Seq<Seq<char>>) -> int {
    2 * text_best(hand) - text_total(hand)
}

/// A hand of card texts the client can score: each text can be cut after
/// its first byte, and the score fits in 32 bits.
pub open spec fn text_hand_ok(hand: Seq<Seq<char>>) -> bool {
    &&& forall|i: int| 0 <= i < hand.len() ==> #[trigger] sliceable(hand[i])
    &&& text_total(hand) <= i32::MAX
    &&& 2 * text_best(hand) <= i32::MAX
}

/// Points of a card text.
pub fn card_points(card: &str) -> (r: i32)
    requires
        sliceable(card@),
    ensures
        r == text_points(card@),
{
    if byte_len(card) < 2 {
        return 0;
    }
    let n = card.unicode_len();
    if n != 2 {
        return 10;
    }
    let c = card.get_char(1);
    if c == 'A' {
        11
    } else if c == '2' {
        2
    } else if c == '3' {
        3
    } else if c == '4' {
        4
    } else if c == '5' {
        5
    } else if c == '6' {
        6
    } else if c == '7' {
        7
    } else if c == '8' {
        8
    } else if c == '9' {
        9
    } else {
        10
    }
}

proof fn lemma_text_points_bounds(t: Seq<char>)
    ensures
        0 <= text_points(t) <= 11,
{
}

proof fn lemma_text_suit_points_prefix(hand: Seq<Seq<char>>, i: int, slot: int)
    requires
        0 <= i <= hand.len(),
    ensures
        0 <= text_suit_points(hand.take(i), slot) <= text_suit_points(hand, slot),
    decreases hand.len(),
{
    if i == hand.len() {
        assert(hand.take(i) =~= hand);
        lemma_text_suit_points_nonneg(hand, slot);
    } else {
        assert(hand.drop_last().take(i) =~= hand.take(i));
        lemma_text_suit_points_prefix(hand.drop_last(), i, slot);
        lemma_text_points_bounds(hand.last());
    }
}

proof fn lemma_text_suit_points_nonneg(hand: Seq<Seq<char>>, slot: int)
    ensures
        text_suit_points(hand, slot) >= 0,
    decreases hand.len(),
{
    if hand.len() > 0 {
        lemma_text_suit_points_nonneg(hand.drop_last(), slot);
        lemma_text_points_bounds(hand.last());
    }
}

fn text_slot(card: &str) -> (r: Option<u8>)
    requires
        sliceable(card@),
    ensures
        match text_suit(card@) {
            Some(k) => r == Some(k as u8),
            None => r is None,
        },
{
    if byte_len(card) < 2 {
        return None;
    }
    let c0 = card.get_char(0);
    if c0 == 'H' {
        Some(0)
    } else if c0 == 'D' {
        Some(1)
    } else if c0 == 'S' {
        Some(2)
    } else if c0 == 'C' {
        Some(3)
    } else {
        None
    }
}

pub open spec fn strings_view(v: Seq<String>) -> Seq<Seq<char>> {
    v.map_values(|s: String| s@)
}

/// The score of a hand of card texts.
pub fn compute_score(hand: &[String]) -> (r: i32)
    requires
        text_hand_ok(strings_view(hand@)),
    ensures
        r == text_score(strings_view(hand@)),
{
    let ghost h = strings_view(hand@);
    let mut t0: i32 = 0;
    let mut t1: i32 = 0;
    let mut t2: i32 = 0;
    let mut t3: i32 = 0;
    let mut total: i32 = 0;
    let n = hand.len();
    for i in 0..n
        invariant
            n == h.len(),
            h == strings_view(hand@),
            text_hand_ok(h),
            t0 == text_suit_points(h.take(i as int), 0),
            t1 == text_suit_points(h.take(i as int), 1),
            t2 == text_suit_points(h.take(i as int), 2),
            t3 == text_suit_points(h.take(i as int), 3),
            total == t0 + t1 + t2 + t3,
    {
        let ghost next = h.take(i + 1);
        proof {
            assert(next.drop_last() =~= h.take(i as int));
            assert(next.last() == h[i as int]);
            lemma_text_suit_points_prefix(h, i + 1, 0);
            lemma_text_suit_points_prefix(h, i + 1, 1);
            lemma_text_suit_points_prefix(h, i + 1, 2);
            lemma_text_suit_points_prefix(h, i + 1, 3);
            lemma_text_suit_points_nonneg(h, 0);
            lemma_text_suit_points_nonneg(h, 1);
            lemma_text_suit_points_nonneg(h, 2);
            lemma_text_suit_points_nonneg(h, 3);
            assert(sliceable(h[i as int]));
        }
        let card = hand[i].as_str();
        assert(card@ == h[i as int]);
        if let Some(slot) = text_slot(card) {
            let pts = card_points(card);
            if slot == 0 {
                t0 = t0 + pts;
            } else if slot == 1 {
                t1 = t1 + pts;
            } else if slot == 2 {
                t2 = t2 + pts;
            } else {
                t3 = t3 + pts;
            }
            total = total + pts;
        }
    }
    proof {
        assert(h.take(n as int) =~= h);
    }
    let mut best = t0;
    if t1 > best {
        best = t1;
    }
    if t2 > best {
        best = t2;
    }
    if t3 > best {
        best = t3;
    }
    proof {
        lemma_text_suit_points_nonneg(h, 0);
        lemma_text_suit_points_nonneg(h, 1);
        lemma_text_suit_points_nonneg(h, 2);
        lemma_text_suit_points_nonneg(h, 3);
        assert(best == text_best(h));
    }
    best * 2 - total
}

/// `i` is the first position of this text in a hand.
pub open spec fn is_first_text(s: Seq<Seq<char>>, t: Seq<char>, i: int) -> bool {
    &&& 0 <= i < s.len()
    &&& s[i] == t
    &&& forall|j: int| 0 <= j < i ==> #[trigger] s[j] != t
}

/// A hand of texts without the first copy of a text (unchanged when the
/// text is not in it).
pub open spec fn remove_first_text(s: Seq<Seq<char>>, t: Seq<char>) -> Seq<Seq<char>> {
    if exists|i: int| is_first_text(s, t, i) {
        s.remove(choose|i: int| is_first_text(s, t, i))
    } else {
        s
    }
}

/// The least score with which the client offers to close.
pub const CLOSE_SCORE: i32 = 38;

/// Whether discarding this card would leave a hand that may close: the
/// hand without the first copy of the card scores at least `CLOSE_SCORE`.
pub fn can_close_with_discard(hand: &[String], discard: &str) -> (r: bool)
    requires
        text_hand_ok(strings_view(hand@)),
    ensures
        r == (text_score(remove_first_text(strings_view(hand@), discard@)) >= CLOSE_SCORE),
{
    let ghost h = strings_view(hand@);
    let mut removed = false;
    let ghost mut at: int = 0;
    let mut remaining: Vec<String> = Vec::new();
    let n = hand.len();
    for i in 0..n
        invariant
            n == h.len(),
            h == strings_view(hand@),
            !removed ==> strings_view(remaining@) =~= h.take(i as int) && forall|j: int|
                0 <= j < i ==> #[trigger] h[j] != discard@,
            removed ==> 0 <= at < i && is_first_text(h, discard@, at) && strings_view(
                remaining@,
            ) =~= h.take(at) + h.subrange(at + 1, i as int),
    {
        let ghost before = remaining@;
        assert(hand@[i as int]@ == h[i as int]);
        if !removed && same_text(hand[i].as_str(), discard) {
            removed = true;
            proof {
                at = i as int;
            }
        } else {
            let c = hand[i].clone();
            remaining.push(c);
            assert(remaining@ =~= before.push(c));
            assert(strings_view(remaining@) =~= strings_view(before).push(c@));
        }
    }
    proof {
        if removed {
            let c = choose|k: int| is_first_text(h, discard@, k);
            if c < at {
                assert(h[c] != discard@);
            } else if c > at {
                assert(h[at] != discard@);
            }
            assert(strings_view(remaining@) =~= h.remove(at));
        } else {
            assert(h.take(n as int) =~= h);
            assert forall|k: int| !is_first_text(h, discard@, k) by {}
        }
        lemma_remove_first_text_ok(h, discard@);
    }
    compute_score(remaining.as_slice()) >= CLOSE_SCORE
}

proof fn lemma_text_suit_points_remove(hand: Seq<Seq<char>>, i: int, slot: int)
    requires
        0 <= i < hand.len(),
    ensures
        text_suit_points(hand.remove(i), slot) == text_suit_points(hand, slot) - if text_suit(
            hand[i],
        ) == Some(slot) {
            text_points(hand[i])
        } else {
            0
        },
    decreases hand.len(),
{
    if i == hand.len() - 1 {
        assert(hand.remove(i) =~= hand.drop_last());
    } else {
        assert(hand.remove(i).drop_last() =~= hand.drop_last().remove(i));
        assert(hand.remove(i).last() == hand.last());
        lemma_text_suit_points_remove(hand.drop_last(), i, slot);
    }
}

proof fn lemma_remove_first_text_ok(h: Seq<Seq<char>>, t: Seq<char>)
    requires
        text_hand_ok(h),
    ensures
        text_hand_ok(remove_first_text(h, t)),
{
    if exists|i: int| is_first_text(h, t, i) {
        let i = choose|i: int| is_first_text(h, t, i);
        let r = h.remove(i);
        lemma_text_suit_points_remove(h, i, 0);
        lemma_text_suit_points_remove(h, i, 1);
        lemma_text_suit_points_remove(h, i, 2);
        lemma_text_suit_points_remove(h, i, 3);
        lemma_text_points_bounds(h[i]);
        lemma_text_suit_points_nonneg(r, 0);
        lemma_text_suit_points_nonneg(r, 1);
        lemma_text_suit_points_nonneg(r, 2);
        lemma_text_suit_points_nonneg(r, 3);
        assert forall|k: int| 0 <= k < r.len() implies #[trigger] sliceable(r[k]) by {
            if k < i {
                assert(r[k] == h[k]);
            } else {
                assert(r[k] == h[k + 1]);
            }
        }
    }
}

/// The text of a card is two ASCII characters, and the client reads its
/// suit slot and points as the engine does.
proof fn lemma_card_text_reading(c: Card)
    ensures
        encode_utf8(card_text(c)).len() == 2,
        sliceable(card_text(c)),
        text_points(card_text(c)) == rank_points(c.rank) as int,
        text_suit(card_text(c)) == Some(
            match c.suit {
                Suit::Hearts => 0int,
                Suit::Diamonds => 1int,
                Suit::Spades => 2int,
                Suit::Clubs => 3int,
            },
        ),
{
    let t = card_text(c);
    assert(vstd::utf8::is_ascii_chars(t));
    vstd::utf8::is_ascii_chars_encode_utf8(t);
}

proof fn lemma_slot_points(hand: Seq<Card>)
    ensures
        text_suit_points(cards_text(hand), 0) == suit_points(hand, Suit::Hearts),
        text_suit_points(cards_text(hand), 1) == suit_points(hand, Suit::Diamonds),
        text_suit_points(cards_text(hand), 2) == suit_points(hand, Suit::Spades),
        text_suit_points(cards_text(hand), 3) == suit_points(hand, Suit::Clubs),
        forall|i: int| 0 <= i < hand.len() ==> #[trigger] sliceable(cards_text(hand)[i]),
    decreases hand.len(),
{
    if hand.len() > 0 {
        assert(cards_text(hand).drop_last() =~= cards_text(hand.drop_last()));
        lemma_slot_points(hand.drop_last());
        lemma_card_text_reading(hand.last());
        assert forall|i: int| 0 <= i < hand.len() implies #[trigger] sliceable(
            cards_text(hand)[i],
        ) by {
            lemma_card_text_reading(hand[i]);
        }
    }
}

/// The client scores the texts of a hand exactly as the engine scores the
/// hand.
pub proof fn lemma_client_score_matches_engine(hand: Seq<Card>)
    ensures
        text_score(cards_text(hand)) == hand_score(hand),
        text_total(cards_text(hand)) == hand_points(hand),
        score_in_range_i16_implies(hand),
{
    lemma_slot_points(hand);
}

/// The client scores the texts of any hand of cards as the engine scores
/// the hand, and neither score depends on the order of the cards.
pub proof fn lemma_client_score_order_free(h1: Seq<Card>, h2: Seq<Card>)
    requires
        h1.to_multiset() == h2.to_multiset(),
    ensures
        text_score(cards_text(h1)) == hand_score(h1),
        text_score(cards_text(h1)) == text_score(cards_text(h2)),
        hand_score(h1) == hand_score(h2),
{
    lemma_client_score_matches_engine(h1);
    lemma_client_score_matches_engine(h2);
    lemma_hand_score_order_free(h1, h2);
}

/// A hand the engine can score is one the client can score too.
pub open spec fn score_in_range_i16_implies(hand: Seq<Card>) -> bool {
    crate::game::score_in_range(hand) ==> text_hand_ok(cards_text(hand))
}

proof fn lemma_card_text_injective(a: Card, b: Card)
    requires
        card_text(a) == card_text(b),
    ensures
        a == b,
{
    lemma_card_text_roundtrip(a);
    lemma_card_text_roundtrip(b);
}

/// Removing the first copy of a card from a hand and then writing the
/// texts gives the texts of the hand without the first copy of that text.
proof fn lemma_remove_first_maps(hand: Seq<Card>, c: Card)
    ensures
        cards_text(remove_first(hand, c)) == remove_first_text(cards_text(hand), card_text(c)),
{
    let ts = cards_text(hand);
    let t = card_text(c);
    assert forall|j: int| 0 <= j < hand.len() implies (#[trigger] ts[j] == t) == (hand[j] == c) by {
        assert(ts[j] == card_text(hand[j]));
        if ts[j] == t {
            lemma_card_text_injective(hand[j], c);
        }
    }
    assert forall|i: int| is_first_pos(hand, c, i) <==> is_first_text(ts, t, i) by {
        if 0 <= i < hand.len() {
            assert(ts[i] == t <==> hand[i] == c);
            if is_first_pos(hand, c, i) {
                assert forall|j: int| 0 <= j < i implies #[trigger] ts[j] != t by {
                    assert(hand[j] != c);
                }
            }
            if is_first_text(ts, t, i) {
                assert forall|j: int| 0 <= j < i implies #[trigger] hand[j] != c by {
                    assert(ts[j] != t);
                }
            }
        }
    }
    if exists|i: int| is_first_pos(hand, c, i) {
        let i = choose|i: int| is_first_pos(hand, c, i);
        let k = choose|k: int| is_first_text(ts, t, k);
        lemma_first_pos_unique(hand, c, i, k);
        assert(cards_text(hand.remove(i)) =~= ts.remove(i));
    }
}

/// The client's close offer for a card judges the hand left after that
/// card: it scores the texts of the hand without the card exactly as the
/// engine scores the hand without it.
pub proof fn lemma_client_close_offer_scores_rest(hand: Seq<Card>, c: Card)
    ensures
        text_score(remove_first_text(cards_text(hand), card_text(c))) == hand_score(
            remove_first(hand, c),
        ),
{
    lemma_remove_first_maps(hand, c);
    lemma_client_score_matches_engine(remove_first(hand, c));
}

// ---------------------------------------------------------------------------
// The client's state of a game
// ---------------------------------------------------------------------------

/// Which screen the client shows.
#[derive(Clone, Copy, Debug, PartialEq, Eq, Structural)]
pub enum ClientStatus {
    PreGame,
    InProgress,
    PostGame,
}

/// The phase the client shows for a player: waiting for their turn, or the
/// game's phase.
#[derive(Clone, Copy, Debug, PartialEq, Eq, Structural)]
pub enum PlayerPhase {
    Waiting,
    P1,
    P2,
    GameEnded,
}

/// The kind of a message from the server.
#[derive(Clone, Copy, Debug, PartialEq, Eq, Structural)]
pub enum MessageType {
    PlayerJoin,
    PlayerLeft,
    PlayerDisconnected,
    PlayerReconnected,
    Reply,
    GameEvent,
    EndGame,
    GameAbandoned,
}

/// A seat as the server sends it and as the client keeps it: name, bin
/// and hand as card texts, and a score.
pub struct Seat {
    pub name: String,
    pub bin: Vec<String>,
    pub hand: Vec<String>,
    pub score: i16,
}

/// A seat as a mathematical value.
pub ghost struct SeatView {
    pub name: Seq<char>,
    pub bin: Seq<Seq<char>>,
    pub hand: Seq<Seq<char>>,
    pub score: i16,
}

impl View for Seat {
    type V = SeatView;

    open spec fn view(&self) -> SeatView {
        SeatView {
            name: self.name@,
            bin: strings_view(self.bin@),
            hand: strings_view(self.hand@),
            score: self.score,
        }
    }
}

pub open spec fn seats_view(v: Seq<Seat>) -> Seq<SeatView> {
    v.map_values(|p: Seat| p@)
}

pub open spec fn opt_string(o: Option<String>) -> Option<Seq<char>> {
    match o {
        Some(s) => Some(s@),
        None => None,
    }
}

/// The data part of a message from the server.
pub struct ServerData {
    pub players: Vec<Seat>,
    pub player_pos: Option<u8>,
    pub current_turn: Option<u8>,
    pub current_phase: Option<PlayerPhase>,
    pub winner_name: Option<String>,
}

/// A message from the server.
pub struct ServerMessage {
    pub status: String,
    pub message_type: MessageType,
    pub data: Option<ServerData>,
}

/// What the client knows of the game it is in.
pub struct ClientState {
    pub game_id: Option<String>,
    pub counter: u64,
    pub game_status: ClientStatus,
    pub players: Vec<Seat>,
    pub player_index: usize,
    pub player_name: String,
    pub current_turn_index: usize,
    pub current_turn_phase: PlayerPhase,
    pub winner: Option<String>,
}

/// What the client knows, as a mathematical value.
pub ghost struct ClientView {
    pub game_id: Option<Seq<char>>,
    pub counter: u64,
    pub game_status: ClientStatus,
    pub players: Seq<SeatView>,
    pub player_index: usize,
    pub player_name: Seq<char>,
    pub current_turn_index: usize,
    pub current_turn_phase: PlayerPhase,
    pub winner: Option<Seq<char>>,
}

impl View for ClientState {
    type V = ClientView;

    open spec fn view(&self) -> ClientView {
        ClientView {
            game_id: opt_string(self.game_id),
            counter: self.counter,
            game_status: self.game_status,
            players: seats_view(self.players@),
            player_index: self.player_index,
            player_name: self.player_name@,
            current_turn_index: self.current_turn_index,
            current_turn_phase: self.current_turn_phase,
            winner: opt_string(self.winner),
        }
    }
}

/// The seats of a lobby: names only.
pub open spec fn lobby_seats(ps: Seq<SeatView>) -> Seq<SeatView> {
    ps.map_values(
        |p: SeatView| SeatView { name: p.name, bin: Seq::empty(), hand: Seq::empty(), score: 0 },
    )
}

/// The seats of a game under way: names, bins and hands, no scores.
pub open spec fn playing_seats(ps: Seq<SeatView>) -> Seq<SeatView> {
    ps.map_values(|p: SeatView| SeatView { name: p.name, bin: p.bin, hand: p.hand, score: 0 })
}

/// The seats of an ended game: names, final hands and scores.
pub open spec fn final_seats(ps: Seq<SeatView>) -> Seq<SeatView> {
    ps.map_values(
        |p: SeatView| SeatView { name: p.name, bin: Seq::empty(), hand: p.hand, score: p.score },
    )
}

/// What the client knows after a successful message from the server.
pub open spec fn after_message(
    s: ClientView,
    t: MessageType,
    data: Option<(Seq<SeatView>, Option<u8>, Option<u8>, Option<PlayerPhase>, Option<Seq<char>>)>,
) -> ClientView {
    let s1 = ClientView { counter: (s.counter + 1) as u64, ..s };
    match data {
        None => s1,
        Some((ps, pos, turn, phase, winner)) => match t {
            MessageType::PlayerJoin | MessageType::PlayerLeft => if s.game_status
                != ClientStatus::PostGame {
                ClientView { players: lobby_seats(ps), ..s1 }
            } else {
                s1
            },
            MessageType::GameEvent => {
                let idx: usize = match pos {
                    Some(p) => p as usize,
                    None => 0,
                };
                ClientView {
                    game_status: ClientStatus::InProgress,
                    players: playing_seats(ps),
                    player_index: idx,
                    player_name: if idx < ps.len() {
                        ps[idx as int].name
                    } else {
                        s.player_name
                    },
                    current_turn_index: match turn {
                        Some(t) => t as usize,
                        None => s.current_turn_index,
                    },
                    current_turn_phase: match phase {
                        Some(p) => p,
                        None => s.current_turn_phase,
                    },
                    ..s1
                }
            },
            MessageType::EndGame => ClientView {
                game_status: ClientStatus::PostGame,
                winner: winner,
                players: final_seats(ps),
                ..s1
            },
            _ => s1,
        },
    }
}

/// A successful lobby message (a player joined or left) with data, outside
/// the post-game screen, replaces the client's players by the names it
/// carries, in order, with empty hands and bins and no score; the counter
/// moves on and nothing else changes.
pub proof fn lemma_lobby_messages_replace_players(
    s: ClientView,
    t: MessageType,
    ps: Seq<SeatView>,
    pos: Option<u8>,
    turn: Option<u8>,
    phase: Option<PlayerPhase>,
    winner: Option<Seq<char>>,
)
    requires
        t == MessageType::PlayerJoin || t == MessageType::PlayerLeft,
        s.game_status != ClientStatus::PostGame,
        s.counter < u64::MAX,
    ensures
        ({
            let a = after_message(s, t, Some((ps, pos, turn, phase, winner)));
            &&& a.players.len() == ps.len()
            &&& forall|i: int|
                0 <= i < ps.len() ==> #[trigger] a.players[i] == (SeatView {
                    name: ps[i].name,
                    bin: Seq::empty(),
                    hand: Seq::empty(),
                    score: 0,
                })
            &&& a.counter == s.counter + 1
            &&& a.game_status == s.game_status
            &&& a.game_id == s.game_id
            &&& a.player_index == s.player_index
            &&& a.player_name == s.player_name
            &&& a.current_turn_index == s.current_turn_index
            &&& a.current_turn_phase == s.current_turn_phase
            &&& a.winner == s.winner
        }),
{
}

/// A successful game event with data puts the client in the game: it
/// keeps the names, hands and bins sent (no scores), takes its seat from the
/// position sent (the first seat when none is), its name from that seat
/// when it exists, and the turn and phase when they are sent.
pub proof fn lemma_game_event_follows_server(
    s: ClientView,
    ps: Seq<SeatView>,
    pos: Option<u8>,
    turn: Option<u8>,
    phase: Option<PlayerPhase>,
    winner: Option<Seq<char>>,
)
    requires
        s.counter < u64::MAX,
    ensures
        ({
            let a = after_message(s, MessageType::GameEvent, Some((ps, pos, turn, phase, winner)));
            let idx: int = match pos {
                Some(p) => p as int,
                None => 0,
            };
            &&& a.game_status == ClientStatus::InProgress
            &&& a.players.len() == ps.len()
            &&& forall|i: int|
                0 <= i < ps.len() ==> #[trigger] a.players[i] == (SeatView {
                    name: ps[i].name,
                    bin: ps[i].bin,
                    hand: ps[i].hand,
                    score: 0,
                })
            &&& a.player_index == idx
            &&& idx < ps.len() ==> a.player_name == ps[idx].name
            &&& idx >= ps.len() ==> a.player_name == s.player_name
            &&& (turn matches Some(t) ==> a.current_turn_index == t)
            &&& (turn is None ==> a.current_turn_index == s.current_turn_index)
            &&& (phase matches Some(f) ==> a.current_turn_phase == f)
            &&& (phase is None ==> a.current_turn_phase == s.current_turn_phase)
            &&& a.winner == s.winner
            &&& a.counter == s.counter + 1
        }),
{
}

/// A successful end-of-game message with data shows the results: the
/// post-game screen, the winner sent, and each player's name, final hand
/// and score (no bins).
pub proof fn lemma_end_game_shows_results(
    s: ClientView,
    ps: Seq<SeatView>,
    pos: Option<u8>,
    turn: Option<u8>,
    phase: Option<PlayerPhase>,
    winner: Option<Seq<char>>,
)
    requires
        s.counter < u64::MAX,
    ensures
        ({
            let a = after_message(s, MessageType::EndGame, Some((ps, pos, turn, phase, winner)));
            &&& a.game_status == ClientStatus::PostGame
            &&& a.winner == winner
            &&& a.players.len() == ps.len()
            &&& forall|i: int|
                0 <= i < ps.len() ==> #[trigger] a.players[i] == (SeatView {
                    name: ps[i].name,
                    bin: Seq::empty(),
                    hand: ps[i].hand,
                    score: ps[i].score,
                })
            &&& a.player_index == s.player_index
            &&& a.current_turn_index == s.current_turn_index
            &&& a.counter == s.counter + 1
        }),
{
}

pub open spec fn data_view(d: Option<ServerData>) -> Option<
    (Seq<SeatView>, Option<u8>, Option<u8>, Option<PlayerPhase>, Option<Seq<char>>),
> {
    match d {
        Some(d) => Some(
            (seats_view(d.players@), d.player_pos, d.current_turn, d.current_phase, opt_string(
                d.winner_name,
            )),
        ),
        None => None,
    }
}

fn copy_texts(v: &Vec<String>) -> (r: Vec<String>)
    ensures
        strings_view(r@) == strings_view(v@),
{
    let mut r: Vec<String> = Vec::new();
    let n = v.len();
    for i in 0..n
        invariant
            n == v@.len(),
            strings_view(r@) =~= strings_view(v@).take(i as int),
    {
        let ghost before = r@;
        let c = v[i].clone();
        r.push(c);
        assert(r@ =~= before.push(c));
        assert(strings_view(r@) =~= strings_view(before).push(c@));
        assert(strings_view(r@) =~= strings_view(v@).take(i + 1));
    }
    assert(strings_view(v@).take(n as int) =~= strings_view(v@));
    r
}

/// The seats kept for a message kind: 0 for a lobby, 1 for a game under
/// way, 2 for an ended game.
fn keep_seats(ps: &Vec<Seat>, kind: u8) -> (r: Vec<Seat>)
    requires
        kind < 3,
    ensures
        seats_view(r@) == if kind == 0 {
            lobby_seats(seats_view(ps@))
        } else if kind == 1 {
            playing_seats(seats_view(ps@))
        } else {
            final_seats(seats_view(ps@))
        },
{
    let ghost want = if kind == 0 {
        lobby_seats(seats_view(ps@))
    } else if kind == 1 {
        playing_seats(seats_view(ps@))
    } else {
        final_seats(seats_view(ps@))
    };
    let mut r: Vec<Seat> = Vec::new();
    let n = ps.len();
    for i in 0..n
        invariant
            n == ps@.len(),
            kind < 3,
            want.len() == n,
            want == if kind == 0 {
                lobby_seats(seats_view(ps@))
            } else if kind == 1 {
                playing_seats(seats_view(ps@))
            } else {
                final_seats(seats_view(ps@))
            },
            seats_view(r@) =~= want.take(i as int),
    {
        let p = &ps[i];
        assert(seats_view(ps@)[i as int] == p@);
        let seat = if kind == 0 {
            Seat { name: p.name.clone(), bin: Vec::new(), hand: Vec::new(), score: 0 }
        } else if kind == 1 {
            Seat { name: p.name.clone(), bin: copy_texts(&p.bin), hand: copy_texts(&p.hand), score: 0 }
        } else {
            Seat { name: p.name.clone(), bin: Vec::new(), hand: copy_texts(&p.hand), score: p.score }
        };
        assert(seat@.bin =~= want[i as int].bin);
        assert(seat@.hand =~= want[i as int].hand);
        let ghost before = r@;
        r.push(seat);
        assert(r@ =~= before.push(seat));
        assert(seats_view(r@) =~= seats_view(before).push(seat@));
        assert(seats_view(r@) =~= want.take(i + 1));
    }
    assert(want.take(n as int) =~= want);
    r
}

impl ClientState {
    /// The client has joined a game: it keeps the game's id and redraws.
    pub fn record_join(&mut self, game_id: String) -> (r: bool)
        requires
            old(self).counter < u64::MAX,
        ensures
            r,
            final(self)@ == (ClientView {
                game_id: Some(game_id@),
                counter: (old(self).counter + 1) as u64,
                ..old(self)@
            }),
    {
        self.game_id = Some(game_id);
        self.counter = self.counter + 1;
        true
    }

    /// Takes in a message from the server; gives whether the screen must be
    /// redrawn. Messages that do not report success are ignored.
    pub fn apply_server_message(&mut self, response: &ServerMessage) -> (r: bool)
        requires
            response.status@ == "success"@ ==> old(self).counter < u64::MAX,
        ensures
            response.status@ != "success"@ ==> !r && final(self)@ == old(self)@,
            response.status@ == "success"@ ==> r && final(self)@ == after_message(
                old(self)@,
                response.message_type,
                data_view(response.data),
            ),
    {
        let success = same_text(response.status.as_str(), "success");
        if !success {
            return false;
        }
        match &response.data {
            Some(data) => match response.message_type {
                MessageType::PlayerJoin | MessageType::PlayerLeft => {
                    if self.game_status != ClientStatus::PostGame {
                        self.players = keep_seats(&data.players, 0);
                    }
                },
                MessageType::GameEvent => {
                    let player_index: usize = match data.player_pos {
                        Some(p) => p as usize,
                        None => 0,
                    };
                    self.game_status = ClientStatus::InProgress;
                    self.players = keep_seats(&data.players, 1);
                    self.player_index = player_index;
                    if player_index < data.players.len() {
                        assert(seats_view(data.players@)[player_index as int]
                            == data.players@[player_index as int]@);
                        self.player_name = data.players[player_index].name.clone();
                    }
                    if let Some(turn) = data.current_turn {
                        self.current_turn_index = turn as usize;
                    }
                    if let Some(phase) = data.current_phase {
                        self.current_turn_phase = phase;
                    }
                },
                MessageType::EndGame => {
                    self.game_status = ClientStatus::PostGame;
                    self.winner = match &data.winner_name {
                        Some(w) => Some(w.clone()),
                        None => None,
                    };
                    self.players = keep_seats(&data.players, 2);
                },
                _ => {},
            },
            None => {},
        }
        self.counter = self.counter + 1;
        true
    }
}

// ---------------------------------------------------------------------------
// The current player's panel
// ---------------------------------------------------------------------------

/// The panel of the player at this client: whose turn, which phase, the
/// hand and bin, and the card under the pointer.
pub struct PlayerPanel {
    pub index: usize,
    pub is_turn: bool,
    pub player_phase: PlayerPhase,
    pub name: String,
    pub hand: Vec<String>,
    pub bin: Vec<String>,
    pub hovered_card: Option<String>,
}

/// The line of help the panel shows.
#[derive(Clone, Copy, Debug, PartialEq, Eq, Structural)]
pub enum Prompt {
    /// The game has ended: no help line.
    Hidden,
    /// Another player's turn.
    Waiting,
    /// Take a card from the deck or the bin.
    Draw,
    /// Discard a card.
    Discard,
}

/// A card of the hand as the panel shows it.
pub struct CardTile {
    pub card: String,
    pub hovered: bool,
    pub closeable: bool,
}

/// What the panel shows.
pub struct PanelModel {
    pub last_five_bin: Vec<String>,
    pub is_draw_phase: bool,
    pub is_discard_phase: bool,
    pub prompt: Prompt,
    pub show_take_bin: bool,
    pub cards: Vec<CardTile>,
}

/// The phase the panel shows: the game's on the player's turn, else waiting.
pub open spec fn shown_phase(s: ClientView) -> PlayerPhase {
    if s.current_turn_index == s.player_index {
        s.current_turn_phase
    } else {
        PlayerPhase::Waiting
    }
}

impl PlayerPanel {
    /// The panel for the client's player.
    pub fn from_state(state: &ClientState) -> (r: PlayerPanel)
        requires
            state.player_index < state.players@.len(),
        ensures
            r.index == state.player_index,
            r.is_turn == (state.current_turn_index == state.player_index),
            r.player_phase == shown_phase(state@),
            r.name@ == state.player_name@,
            strings_view(r.hand@) == state@.players[state.player_index as int].hand,
            strings_view(r.bin@) == state@.players[state.player_index as int].bin,
            r.hovered_card is None,
    {
        let is_turn = state.current_turn_index == state.player_index;
        let seat = &state.players[state.player_index];
        assert(state@.players[state.player_index as int] == seat@);
        PlayerPanel {
            index: state.player_index,
            is_turn,
            player_phase: if is_turn {
                state.current_turn_phase
            } else {
                PlayerPhase::Waiting
            },
            name: state.player_name.clone(),
            hand: copy_texts(&seat.hand),
            bin: copy_texts(&seat.bin),
            hovered_card: None,
        }
    }

    /// Follows a change of the client's state; gives whether to redraw.
    /// Only a game under way changes the panel.
    pub fn on_state_changed(&mut self, state: &ClientState) -> (r: bool)
        requires
            state.game_status == ClientStatus::InProgress ==> state.player_index
                < state.players@.len(),
        ensures
            r == (state.game_status == ClientStatus::InProgress),
            !r ==> {
                &&& final(self).index == old(self).index
                &&& final(self).is_turn == old(self).is_turn
                &&& final(self).player_phase == old(self).player_phase
                &&& final(self).name@ == old(self).name@
                &&& final(self).hand@ == old(self).hand@
                &&& final(self).bin@ == old(self).bin@
                &&& final(self).hovered_card == old(self).hovered_card
            },
            r ==> {
                &&& final(self).index == old(self).index
                &&& final(self).name@ == old(self).name@
                &&& final(self).is_turn == (state.current_turn_index == state.player_index)
                &&& final(self).player_phase == shown_phase(state@)
                &&& strings_view(final(self).hand@) == state@.players[state.player_index as int].hand
                &&& strings_view(final(self).bin@) == state@.players[state.player_index as int].bin
                &&& final(self).hovered_card is None
            },
    {
        if state.game_status != ClientStatus::InProgress {
            return false;
        }
        let is_turn = state.current_turn_index == state.player_index;
        self.is_turn = is_turn;
        self.player_phase = if is_turn {
            state.current_turn_phase
        } else {
            PlayerPhase::Waiting
        };
        let seat = &state.players[state.player_index];
        assert(state@.players[state.player_index as int] == seat@);
        self.hand = copy_texts(&seat.hand);
        self.bin = copy_texts(&seat.bin);
        self.hovered_card = None;
        true
    }

    /// What the panel shows: the last five cards of the bin, the help line,
    /// whether taking the bin is offered, and for each card of the hand
    /// whether it is under the pointer and whether discarding it would
    /// allow closing.
    pub fn view_model(&self) -> (r: PanelModel)
        requires
            (self.is_turn && self.player_phase == PlayerPhase::P2) ==> text_hand_ok(
                strings_view(self.hand@),
            ),
        ensures
            ({
                let bin = strings_view(self.bin@);
                let hand = strings_view(self.hand@);
                let draw = self.is_turn && self.player_phase == PlayerPhase::P1;
                let discard = self.is_turn && self.player_phase == PlayerPhase::P2;
                &&& strings_view(r.last_five_bin@) == bin.subrange(
                    if bin.len() > 5 {
                        bin.len() - 5
                    } else {
                        0
                    },
                    bin.len() as int,
                )
                &&& r.is_draw_phase == draw
                &&& r.is_discard_phase == discard
                &&& r.prompt == if self.player_phase == PlayerPhase::GameEnded {
                    Prompt::Hidden
                } else if !self.is_turn {
                    Prompt::Waiting
                } else if self.player_phase == PlayerPhase::P1 {
                    Prompt::Draw
                } else {
                    Prompt::Discard
                }
                &&& r.show_take_bin == (draw && bin.len() > 0)
                &&& r.cards@.len() == hand.len()
                &&& forall|i: int|
                    0 <= i < hand.len() ==> {
                        &&& (#[trigger] r.cards@[i]).card@ == hand[i]
                        &&& r.cards@[i].hovered == (opt_string(self.hovered_card) == Some(hand[i]))
                        &&& r.cards@[i].closeable == (discard && text_score(
                            remove_first_text(hand, hand[i]),
                        ) >= CLOSE_SCORE)
                    }
            }),
    {
        let ghost bin = strings_view(self.bin@);
        let ghost hand = strings_view(self.hand@);
        let is_draw_phase = self.is_turn && self.player_phase == PlayerPhase::P1;
        let is_discard_phase = self.is_turn && self.player_phase == PlayerPhase::P2;
        let nb = self.bin.len();
        let start = if nb > 5 {
            nb - 5
        } else {
            0
        };
        let mut last_five_bin: Vec<String> = Vec::new();
        for i in start..nb
            invariant
                nb == bin.len(),
                start <= nb,
                bin == strings_view(self.bin@),
                strings_view(last_five_bin@) =~= bin.subrange(start as int, i as int),
        {
            let ghost before = last_five_bin@;
            let c = self.bin[i].clone();
            last_five_bin.push(c);
            assert(last_five_bin@ =~= before.push(c));
            assert(strings_view(last_five_bin@) =~= strings_view(before).push(c@));
        }
        let prompt = if self.player_phase == PlayerPhase::GameEnded {
            Prompt::Hidden
        } else if !self.is_turn {
            Prompt::Waiting
        } else if self.player_phase == PlayerPhase::P1 {
            Prompt::Draw
        } else {
            Prompt::Discard
        };
        let mut cards: Vec<CardTile> = Vec::new();
        let n = self.hand.len();
        for i in 0..n
            invariant
                n == hand.len(),
                hand == strings_view(self.hand@),
                is_discard_phase == (self.is_turn && self.player_phase == PlayerPhase::P2),
                is_discard_phase ==> text_hand_ok(hand),
                cards@.len() == i,
                forall|k: int|
                    0 <= k < i ==> {
                        &&& (#[trigger] cards@[k]).card@ == hand[k]
                        &&& cards@[k].hovered == (opt_string(self.hovered_card) == Some(hand[k]))
                        &&& cards@[k].closeable == (is_discard_phase && text_score(
                            remove_first_text(hand, hand[k]),
                        ) >= CLOSE_SCORE)
                    },
        {
            let h = &self.hand[i];
            assert(h@ == hand[i as int]);
            let hovered = match &self.hovered_card {
                Some(c) => same_text(c.as_str(), h.as_str()),
                None => false,
            };
            let closeable = is_discard_phase && can_close_with_discard(self.hand.as_slice(), h.as_str());
            cards.push(CardTile { card: h.clone(), hovered, closeable });
        }
        PanelModel {
            last_five_bin,
            is_draw_phase,
            is_discard_phase,
            prompt,
            show_take_bin: is_draw_phase && nb > 0,
            cards,
        }
    }
}

} // verus!
