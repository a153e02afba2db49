//! Playing cards, their point values and their two-character text form
//! (suit letter then rank letter, as in `"H2"` or `"SX"`).

use vstd::prelude::*;

verus! {

/// The four suits of a standard deck.
#[derive(Clone, Copy, Debug, PartialEq, Eq, Structural)]
pub enum Suit {
    Hearts,
    Diamonds,
    Clubs,
    Spades,
}

/// The thirteen ranks of a standard deck.
#[derive(Clone, Copy, Debug, PartialEq, Eq, Structural)]
pub enum Rank {
    Ace,
    Two,
    Three,
    Four,
    Five,
    Six,
    Seven,
    Eight,
    Nine,
    Ten,
    Jack,
    Queen,
    King,
}

/// A playing card.
#[derive(Clone, Copy, Debug, PartialEq, Eq, Structural)]
pub struct Card {
    pub suit: Suit,
    pub rank: Rank,
}

/// Points a card of this rank is worth: the ace 11, pip cards their
/// number, the ten and the court cards 10.
pub open spec fn rank_points(r: Rank) -> u16 {
    match r {
        Rank::Ace => 11,
        Rank::Two => 2,
        Rank::Three => 3,
        Rank::Four => 4,
        Rank::Five => 5,
        Rank::Six => 6,
        Rank::Seven => 7,
        Rank::Eight => 8,
        Rank::Nine => 9,
        Rank::Ten => 10,
        Rank::Jack => 10,
        Rank::Queen => 10,
        Rank::King => 10,
    }
}

/// The letter that names a suit.
pub open spec fn suit_char(s: Suit) -> char {
    match s {
        Suit::Hearts => 'H',
        Suit::Diamonds => 'D',
        Suit::Clubs => 'C',
        Suit::Spades => 'S',
    }
}

/// The letter that names a rank (`X` for the ten).
pub open spec fn rank_char(r: Rank) -> char {
    match r {
        Rank::Ace => 'A',
        Rank::Two => '2',
        Rank::Three => '3',
        Rank::Four => '4',
        Rank::Five => '5',
        Rank::Six => '6',
        Rank::Seven => '7',
        Rank::Eight => '8',
        Rank::Nine => '9',
        Rank::Ten => 'X',
        Rank::Jack => 'J',
        Rank::Queen => 'Q',
        Rank::King => 'K',
    }
}

/// The suit a letter names, if any.
pub open spec fn suit_of_char(c: char) -> Option<Suit> {
    if c == 'H' {
        Some(Suit::Hearts)
    } else if c == 'D' {
        Some(Suit::Diamonds)
    } else if c == 'C' {
        Some(Suit::Clubs)
    } else if c == 'S' {
        Some(Suit::Spades)
    } else {
        None
    }
}

/// The rank a letter names, if any.
pub open spec fn rank_of_char(c: char) -> Option<Rank> {
    if c == 'A' {
        Some(Rank::Ace)
    } else if c == '2' {
        Some(Rank::Two)
    } else if c == '3' {
        Some(Rank::Three)
    } else if c == '4' {
        Some(Rank::Four)
    } else if c == '5' {
        Some(Rank::Five)
    } else if c == '6' {
        Some(Rank::Six)
    } else if c == '7' {
        Some(Rank::Seven)
    } else if c == '8' {
        Some(Rank::Eight)
    } else if c == '9' {
        Some(Rank::Nine)
    } else if c == 'X' {
        Some(Rank::Ten)
    } else if c == 'J' {
        Some(Rank::Jack)
    } else if c == 'Q' {
        Some(Rank::Queen)
    } else if c == 'K' {
        Some(Rank::King)
    } else {
        None
    }
}

/// The text of a card: its suit letter followed by its rank letter.
pub open spec fn card_text(c: Card) -> Seq<char> {
    seq![suit_char(c.suit), rank_char(c.rank)]
}

/// The card a text names: exactly two characters, a suit letter then a
/// rank letter.
pub open spec fn parse_card_text(s: Seq<char>) -> Option<Card> {
    if s.len() == 2 {
        match (suit_of_char(s[0]), rank_of_char(s[1])) {
            (Some(suit), Some(rank)) => Some(Card { suit, rank }),
            _ => None,
        }
    } else {
        None
    }
}

fn suit_text(s: Suit) -> (t: &'static str)
    ensures
        t@ == seq![suit_char(s)],
{
    match s {
        Suit::Hearts => {
            proof {
                reveal_strlit("H");
            }
            "H"
        },
        Suit::Diamonds => {
            proof {
                reveal_strlit("D");
            }
            "D"
        },
        Suit::Clubs => {
            proof {
                reveal_strlit("C");
            }
            "C"
        },
        Suit::Spades => {
            proof {
                reveal_strlit("S");
            }
            "S"
        },
    }
}

fn rank_text(r: Rank) -> (t: &'static str)
    ensures
        t@ == seq![rank_char(r)],
{
    match r {
        Rank::Ace => {
            proof {
                reveal_strlit("A");
            }
            "A"
        },
        Rank::Two => {
            proof {
                reveal_strlit("2");
            }
            "2"
        },
        Rank::Three => {
            proof {
                reveal_strlit("3");
            }
            "3"
        },
        Rank::Four => {
            proof {
                reveal_strlit("4");
            }
            "4"
        },
        Rank::Five => {
            proof {
                reveal_strlit("5");
            }
            "5"
        },
        Rank::Six => {
            proof {
                reveal_strlit("6");
            }
            "6"
        },
        Rank::Seven => {
            proof {
                reveal_strlit("7");
            }
            "7"
        },
        Rank::Eight => {
            proof {
                reveal_strlit("8");
            }
            "8"
        },
        Rank::Nine => {
            proof {
                reveal_strlit("9");
            }
            "9"
        },
        Rank::Ten => {
            proof {
                reveal_strlit("X");
            }
            "X"
        },
        Rank::Jack => {
            proof {
                reveal_strlit("J");
            }
            "J"
        },
        Rank::Queen => {
            proof {
                reveal_strlit("Q");
            }
            "Q"
        },
        Rank::King => {
            proof {
                reveal_strlit("K");
            }
            "K"
        },
    }
}

fn suit_from_char(c: char) -> (r: Option<Suit>)
    ensures
        r == suit_of_char(c),
{
    if c == 'H' {
        Some(Suit::Hearts)
    } else if c == 'D' {
        Some(Suit::Diamonds)
    } else if c == 'C' {
        Some(Suit::Clubs)
    } else if c == 'S' {
        Some(Suit::Spades)
    } else {
        None
    }
}

fn rank_from_char(c: char) -> (r: Option<Rank>)
    ensures
        r == rank_of_char(c),
{
    if c == 'A' {
        Some(Rank::Ace)
    } else if c == '2' {
        Some(Rank::Two)
    } else if c == '3' {
        Some(Rank::Three)
    } else if c == '4' {
        Some(Rank::Four)
    } else if c == '5' {
        Some(Rank::Five)
    } else if c == '6' {
        Some(Rank::Six)
    } else if c == '7' {
        Some(Rank::Seven)
    } else if c == '8' {
        Some(Rank::Eight)
    } else if c == '9' {
        Some(Rank::Nine)
    } else if c == 'X' {
        Some(Rank::Ten)
    } else if c == 'J' {
        Some(Rank::Jack)
    } else if c == 'Q' {
        Some(Rank::Queen)
    } else if c == 'K' {
        Some(Rank::King)
    } else {
        None
    }
}

impl Card {
    /// Points this card is worth.
    pub fn points(&self) -> (p: u16)
        ensures
            p == rank_points(self.rank),
            2 <= p <= 11,
    {
        match self.rank {
            Rank::Ace => 11,
            Rank::Two => 2,
            Rank::Three => 3,
            Rank::Four => 4,
            Rank::Five => 5,
            Rank::Six => 6,
            Rank::Seven => 7,
            Rank::Eight => 8,
            Rank::Nine => 9,
            Rank::Ten => 10,
            Rank::Jack => 10,
            Rank::Queen => 10,
            Rank::King => 10,
        }
    }

    /// Reads a card from its two-character text; `None` for any other text.
    pub fn from_string(s: &str) -> (r: Option<Card>)
        ensures
            r == parse_card_text(s@),
    {
        if s.unicode_len() != 2 {
            return None;
        }
        let c0 = s.get_char(0);
        let c1 = s.get_char(1);
        match (suit_from_char(c0), rank_from_char(c1)) {
            (Some(suit), Some(rank)) => Some(Card { suit, rank }),
            _ => None,
        }
    }

    /// The two-character text of this card.
    pub fn to_string(&self) -> (s: String)
        ensures
            s@ == card_text(*self),
    {
        let s = String::from_str(suit_text(self.suit));
        s.concat(rank_text(self.rank))
    }
}

/// Reading the text of any card gives that card back.
pub proof fn lemma_card_text_roundtrip(c: Card)
    ensures
        parse_card_text(card_text(c)) == Some(c),
{
}

/// A text that reads as a card is exactly the text of that card.
pub proof fn lemma_card_parse_is_exact(s: Seq<char>)
    requires
        parse_card_text(s) is Some,
    ensures
        card_text(parse_card_text(s)->0) =~= s,
{
}

} // verus!
