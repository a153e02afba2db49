//! An in-memory register of game lobbies and their connected players.

use vstd::prelude::*;
use std::collections::HashMap;
use crate::game::Game;
use crate::ids::{generate_short_uuid, short_id_text, valid_game_id};
use crate::session::GameStateStatus;

verus! {

/// A game in the register: its id, status, the engine's game once
/// started, and the connected players by id, each with a name and a
/// channel `S` to reach them.
pub struct GameState<S> {
    pub id: String,
    pub status: GameStateStatus,
    pub game: Option<Game>,
    pub players: HashMap<u128, (String, S)>,
}

/// The games of the register, each under its own id.
pub struct GameManager<S> {
    pub games: Vec<GameState<S>>,
}

/// A finished game that nobody is connected to any more.
pub open spec fn is_spent<S>(g: GameState<S>) -> bool {
    g.status == GameStateStatus::Finished && g.players@.is_empty()
}

/// The games kept when a game with id `new_id` is added: the games that
/// are not spent, without any under that id (the new game takes its
/// place).
pub open spec fn kept_games<S>(gs: Seq<GameState<S>>, new_id: Seq<char>) -> Seq<GameState<S>>
    decreases gs.len(),
{
    if gs.len() == 0 {
        gs
    } else if is_spent(gs.last()) || gs.last().id@ == new_id {
        kept_games(gs.drop_last(), new_id)
    } else {
        kept_games(gs.drop_last(), new_id).push(gs.last())
    }
}

/// No two games of the register share an id.
pub open spec fn ids_distinct<S>(gs: Seq<GameState<S>>) -> bool {
    forall|i: int, j: int| 0 <= i < j < gs.len() ==> #[trigger] gs[i].id@ != #[trigger] gs[j].id@
}

/// The games kept are games of the register, none under the new id, and
/// they keep the register's ids apart.
pub proof fn lemma_kept_games<S>(gs: Seq<GameState<S>>, new_id: Seq<char>)
    ensures
        forall|k: int|
            0 <= k < kept_games(gs, new_id).len() ==> #[trigger] kept_games(gs, new_id)[k].id@
                != new_id,
        forall|k: int|
            0 <= k < kept_games(gs, new_id).len() ==> exists|j: int|
                0 <= j < gs.len() && #[trigger] kept_games(gs, new_id)[k] == gs[j],
        ids_distinct(gs) ==> ids_distinct(kept_games(gs, new_id)),
    decreases gs.len(),
{
    if gs.len() > 0 {
        let rest = gs.drop_last();
        lemma_kept_games(rest, new_id);
        let kr = kept_games(rest, new_id);
        let kg = kept_games(gs, new_id);
        assert forall|k: int| 0 <= k < kr.len() implies exists|j: int|
            0 <= j < gs.len() && #[trigger] kr[k] == gs[j] by {
            let j = choose|j: int| 0 <= j < rest.len() && kr[k] == rest[j];
            assert(gs[j] == rest[j]);
        }
        if !(is_spent(gs.last()) || gs.last().id@ == new_id) {
            assert(kg == kr.push(gs.last()));
            assert forall|k: int| 0 <= k < kg.len() implies exists|j: int|
                0 <= j < gs.len() && #[trigger] kg[k] == gs[j] by {
                if k == kr.len() {
                    assert(kg[k] == gs[gs.len() - 1]);
                } else {
                    assert(kg[k] == kr[k]);
                }
            }
            if ids_distinct(gs) {
                assert(ids_distinct(rest));
                assert forall|i: int, j: int| 0 <= i < j < kg.len() implies #[trigger] kg[i].id@
                    != #[trigger] kg[j].id@ by {
                    if j == kr.len() {
                        let m = choose|m: int| 0 <= m < rest.len() && kr[i] == rest[m];
                        assert(rest[m] == gs[m]);
                        assert(gs[m].id@ != gs[gs.len() - 1].id@);
                    } else {
                        assert(kg[i] == kr[i]);
                        assert(kg[j] == kr[j]);
                    }
                }
            }
        }
    }
}

/// A new, empty lobby.
pub open spec fn is_new_lobby<S>(g: GameState<S>) -> bool {
    &&& valid_game_id(g.id@)
    &&& g.status == GameStateStatus::Lobby
    &&& g.game is None
    &&& g.players@.is_empty()
}

impl<S> GameManager<S> {
    /// An empty register.
    pub fn new() -> (r: Self)
        ensures
            r.games@.len() == 0,
            ids_distinct(r.games@),
    {
        GameManager { games: Vec::new() }
    }

    /// Opens a new lobby under a fresh short id, first dropping the
    /// finished games nobody is connected to; gives the new lobby.
    pub fn create_game(&mut self) -> (r: GameState<S>)
        ensures
            is_new_lobby(r),
            exists|v: u128| r.id@ == #[trigger] short_id_text(v),
            final(self).games@.len() >= 1,
            final(self).games@.drop_last() == kept_games(old(self).games@, r.id@),
            is_new_lobby(final(self).games@.last()),
            final(self).games@.last().id@ == r.id@,
            ids_distinct(old(self).games@) ==> ids_distinct(final(self).games@),
    {
        let id = generate_short_uuid();
        let mut rest: Vec<GameState<S>> = Vec::new();
        std::mem::swap(&mut rest, &mut self.games);
        let ghost orig = rest@;
        assert(orig.len() == rest.len());
        let mut kept: Vec<GameState<S>> = Vec::new();
        let mut i: usize = 0;
        while rest.len() > 0
            invariant
                rest@ == orig.skip(i as int),
                i <= orig.len(),
                orig.len() <= usize::MAX,
                kept@ == kept_games(orig.take(i as int), id@),
            decreases rest@.len(),
        {
            assert(orig.take(i + 1).drop_last() =~= orig.take(i as int));
            assert(orig.take(i + 1).last() == orig[i as int]);
            let g = rest.remove(0);
            assert(g == orig[i as int]);
            let spent = g.status == GameStateStatus::Finished && g.players.is_empty();
            let same_id = g.id == id;
            if !spent && !same_id {
                kept.push(g);
            }
            i = i + 1;
            assert(rest@ =~= orig.skip(i as int));
        }
        assert(orig.take(i as int) =~= orig);
        let game = GameState {
            id: id.clone(),
            status: GameStateStatus::Lobby,
            game: None,
            players: HashMap::new(),
        };
        kept.push(
            GameState { id, status: GameStateStatus::Lobby, game: None, players: HashMap::new() },
        );
        proof {
            lemma_kept_games(orig, id@);
            let f = kept@;
            assert forall|a: int, b: int| 0 <= a < b < f.len() && ids_distinct(orig) implies
                #[trigger] f[a].id@ != #[trigger] f[b].id@ by {
                if b == f.len() - 1 {
                    assert(f[a] == kept_games(orig, id@)[a]);
                } else {
                    assert(f[a] == kept_games(orig, id@)[a]);
                    assert(f[b] == kept_games(orig, id@)[b]);
                }
            }
        }
        self.games = kept;
        game
    }
}

} // verus!
