//! Ids of players and games: random 128-bit ids, their text form, and the
//! short ids that name games.

use vstd::prelude::*;

verus! {

/// A fresh random id (`uuid::Uuid::new_v4`, as its 128-bit value).
/// Nothing is claimed of the value: it rests on chance.
#[verifier::external_body]
pub(crate) fn fresh_id() -> u128 {
    uuid::Uuid::new_v4().as_u128()
}

/// The id a text names, as `uuid::Uuid::parse_str` reads it.
pub uninterp spec fn uuid_from_text(s: Seq<char>) -> Option<u128>;

/// The hyphenated text of an id, as `uuid::Uuid`'s `Display` writes it.
pub uninterp spec fn uuid_text(id: u128) -> Seq<char>;

/// Reads an id with `uuid::Uuid::parse_str`. Claimed: the result is the
/// id the text names, if any, a function of the text alone.
#[verifier::external_body]
pub(crate) fn parse_uuid(s: &str) -> (r: Option<u128>)
    ensures
        r == uuid_from_text(s@),
{
    match uuid::Uuid::parse_str(s) {
        Ok(id) => Some(id.as_u128()),
        Err(_) => None,
    }
}

/// Writes an id in its hyphenated text form with `uuid::Uuid`'s
/// `Display`. Claimed: the text is a function of the id, and
/// `uuid::Uuid::parse_str` reads it back as the same id.
#[verifier::external_body]
pub(crate) fn uuid_to_text(id: u128) -> (r: String)
    ensures
        r@ == uuid_text(id),
        uuid_from_text(r@) == Some(id),
{
    uuid::Uuid::from_u128(id).to_string()
}

/// A character that may stand in a game id.
pub open spec fn is_ascii_alnum(c: char) -> bool {
    ('0' <= c && c <= '9') || ('a' <= c && c <= 'z') || ('A' <= c && c <= 'Z')
}

/// A well-formed game id: one to twelve bytes, all ASCII letters or digits.
pub open spec fn valid_game_id(s: Seq<char>) -> bool {
    &&& s.len() > 0
    &&& vstd::utf8::encode_utf8(s).len() <= 12
    &&& forall|i: int| 0 <= i < s.len() ==> #[trigger] is_ascii_alnum(s[i])
}

pub open spec fn hex_digit(v: int) -> char {
    if v < 10 {
        (('0' as int) + v) as char
    } else {
        (('a' as int) + v - 10) as char
    }
}

fn hex_text(v: u8) -> (t: &'static str)
    requires
        v < 16,
    ensures
        t@ == seq![hex_digit(v as int)],
        is_ascii_alnum(hex_digit(v as int)),
{
    match v {
        0 => {
            proof {
                reveal_strlit("0");
            }
            "0"
        },
        1 => {
            proof {
                reveal_strlit("1");
            }
            "1"
        },
        2 => {
            proof {
                reveal_strlit("2");
            }
            "2"
        },
        3 => {
            proof {
                reveal_strlit("3");
            }
            "3"
        },
        4 => {
            proof {
                reveal_strlit("4");
            }
            "4"
        },
        5 => {
            proof {
                reveal_strlit("5");
            }
            "5"
        },
        6 => {
            proof {
                reveal_strlit("6");
            }
            "6"
        },
        7 => {
            proof {
                reveal_strlit("7");
            }
            "7"
        },
        8 => {
            proof {
                reveal_strlit("8");
            }
            "8"
        },
        9 => {
            proof {
                reveal_strlit("9");
            }
            "9"
        },
        10 => {
            proof {
                reveal_strlit("a");
            }
            "a"
        },
        11 => {
            proof {
                reveal_strlit("b");
            }
            "b"
        },
        12 => {
            proof {
                reveal_strlit("c");
            }
            "c"
        },
        13 => {
            proof {
                reveal_strlit("d");
            }
            "d"
        },
        14 => {
            proof {
                reveal_strlit("e");
            }
            "e"
        },
        15 => {
            proof {
                reveal_strlit("f");
            }
            "f"
        },
        _ => {
            proof {
                reveal_strlit("f");
            }
            "f"
        },
    }
}

/// The lowest `n` hexadecimal digits of `v`, lowest digit first.
pub open spec fn hex_digits(v: nat, n: nat) -> Seq<char>
    decreases n,
{
    if n == 0 {
        Seq::empty()
    } else {
        seq![hex_digit((v % 16) as int)] + hex_digits(v / 16, (n - 1) as nat)
    }
}

/// The short game id of a drawn value: its lowest eight hexadecimal
/// digits, lowest first.
pub open spec fn short_id_text(v: u128) -> Seq<char> {
    hex_digits(v as nat, 8)
}

/// Hexadecimal digits are ASCII letters or digits, one per place.
pub proof fn lemma_hex_digits_alnum(v: nat, n: nat)
    ensures
        hex_digits(v, n).len() == n,
        forall|k: int| 0 <= k < n ==> #[trigger] is_ascii_alnum(hex_digits(v, n)[k]),
    decreases n,
{
    if n > 0 {
        lemma_hex_digits_alnum(v / 16, (n - 1) as nat);
        let rest = hex_digits(v / 16, (n - 1) as nat);
        assert forall|k: int| 0 <= k < n implies #[trigger] is_ascii_alnum(hex_digits(v, n)[k]) by {
            if k > 0 {
                assert(hex_digits(v, n)[k] == rest[k - 1]);
            }
        }
    }
}

/// A short id is a well-formed game id of eight characters.
pub proof fn lemma_short_id_valid(v: u128)
    ensures
        short_id_text(v).len() == 8,
        valid_game_id(short_id_text(v)),
{
    let t = short_id_text(v);
    lemma_hex_digits_alnum(v as nat, 8);
    assert forall|i: int| 0 <= i < t.len() implies '\0' <= #[trigger] t[i] <= '\u{7f}' by {
        assert(is_ascii_alnum(t[i]));
    }
    vstd::utf8::is_ascii_chars_encode_utf8(t);
}

/// Writes the short game id of a value: its lowest eight hexadecimal
/// digits, lowest first.
pub fn short_id_of(v: u128) -> (r: String)
    ensures
        r@ == short_id_text(v),
{
    let mut cur: u128 = v;
    let mut r = String::new();
    for i in 0..8usize
        invariant
            r@ + hex_digits(cur as nat, (8 - i) as nat) == short_id_text(v),
    {
        let d = (cur % 16) as u8;
        let ghost before = r@;
        assert(hex_digits(cur as nat, (8 - i) as nat) == seq![hex_digit((cur % 16) as int)]
            + hex_digits((cur / 16) as nat, (8 - i - 1) as nat));
        r = r.concat(hex_text(d));
        cur = cur / 16;
        assert(r@ + hex_digits(cur as nat, (8 - (i + 1)) as nat) =~= before + (seq![
            hex_digit(d as int),
        ] + hex_digits(cur as nat, (8 - i - 1) as nat)));
    }
    assert(r@ + hex_digits(cur as nat, 0) =~= r@);
    r
}

/// A short random game id: the short id of a freshly drawn value.
pub fn generate_short_uuid() -> (r: String)
    ensures
        exists|v: u128| r@ == #[trigger] short_id_text(v),
        valid_game_id(r@),
        r@.len() == 8,
{
    let id = fresh_id();
    let r = short_id_of(id);
    proof {
        lemma_short_id_valid(id);
    }
    r
}

} // verus!
