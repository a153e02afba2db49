//! The claims carried by the tokens that admit a player to a game.

use vstd::prelude::*;
use crate::ids::{uuid_from_text, uuid_text, uuid_to_text};

verus! {

/// How long a token stays valid, in seconds (a day).
pub const TOKEN_EXPIRY_SECS: u64 = 86_400;

/// The claims of a player's token: the game, the player's id (hyphenated
/// text) and name, and when the token expires (seconds since the epoch).
pub struct Claims {
    pub game_id: String,
    pub player_id: String,
    pub player_name: String,
    pub exp: u64,
}

impl Claims {
    /// The claims of a token issued at `now_secs` to a player joining a game.
    pub fn issue(game_id: &str, player_id: u128, player_name: &str, now_secs: u64) -> (c: Claims)
        requires
            now_secs + TOKEN_EXPIRY_SECS <= u64::MAX,
        ensures
            c.game_id@ == game_id@,
            c.player_id@ == uuid_text(player_id),
            uuid_from_text(c.player_id@) == Some(player_id),
            c.player_name@ == player_name@,
            c.exp == now_secs + TOKEN_EXPIRY_SECS,
    {
        Claims {
            game_id: String::from_str(game_id),
            player_id: uuid_to_text(player_id),
            player_name: String::from_str(player_name),
            exp: now_secs + TOKEN_EXPIRY_SECS,
        }
    }
}

} // verus!
