//! The records a training run leaves behind, and the lookup that picks the
//! logged game to replay out of them.
use crate::game::{clone_directions, GameLog, Score};
use vstd::prelude::*;

verus! {

/// One finished game of a training run.
#[derive(Debug)]
pub struct PlayedGame {
    pub gen_id: i32,
    pub score: Score,
    pub game_log: Option<GameLog>,
}

/// Everything a training run recorded.
#[derive(Debug)]
pub struct TrainingOutcomes {
    pub games_played: Vec<PlayedGame>,
}

/// The position of the first recorded game with this generation id.
pub open spec fn spec_find_game(games: Seq<PlayedGame>, gen_id: i32) -> Option<int>
    decreases games.len(),
{
    if games.len() == 0 {
        None
    } else if games[0].gen_id == gen_id {
        Some(0int)
    } else {
        match spec_find_game(games.drop_first(), gen_id) {
            Some(i) => Some(i + 1),
            None => None,
        }
    }
}

/// The log of the first recorded game with this generation id, if that game
/// exists and was played with logging on.
pub fn find_game_log(outcomes: &TrainingOutcomes, gen_id: i32) -> (r: Option<GameLog>)
    ensures
        match spec_find_game(outcomes.games_played@, gen_id) {
            Some(i) => (match outcomes.games_played@[i].game_log {
                Some(l) => r matches Some(rl) && rl.seed == l.seed && rl.moves@ == l.moves@,
                None => r is None,
            }),
            None => r is None,
        },
{
    proof {
        lemma_find_game_from(outcomes.games_played@, gen_id, 0);
        assert(outcomes.games_played@.subrange(0, outcomes.games_played@.len() as int)
            =~= outcomes.games_played@);
    }
    let mut i: usize = 0;
    while i < outcomes.games_played.len()
        invariant
            0 <= i <= outcomes.games_played@.len(),
            spec_find_game(outcomes.games_played@, gen_id) == spec_find_game_from(
                outcomes.games_played@,
                gen_id,
                i as int,
            ),
        decreases outcomes.games_played@.len() - i,
    {
        let g = &outcomes.games_played[i];
        if g.gen_id == gen_id {
            proof {
                reveal_with_fuel(spec_find_game_from, 2);
                assert(*g == outcomes.games_played@[i as int]);
                assert(spec_find_game(outcomes.games_played@, gen_id) == Some(i as int));
            }
            match &g.game_log {
                Some(l) => {
                    let out = GameLog { seed: l.seed, moves: clone_directions(&l.moves) };
                    proof {
                        assert(*l == outcomes.games_played@[i as int].game_log->0);
                    }
                    return Some(out);
                },
                None => {
                    return None;
                },
            }
        }
        proof {
            reveal_with_fuel(spec_find_game_from, 2);
        }
        i = i + 1;
    }
    None
}

/// The first match at or past position `i`.
pub open spec fn spec_find_game_from(games: Seq<PlayedGame>, gen_id: i32, i: int) -> Option<int>
    decreases games.len() - i,
{
    if i < 0 || i >= games.len() {
        None
    } else if games[i].gen_id == gen_id {
        Some(i)
    } else {
        spec_find_game_from(games, gen_id, i + 1)
    }
}

/// The two search orders agree.
proof fn lemma_find_game_from(games: Seq<PlayedGame>, gen_id: i32, i: int)
    requires
        0 <= i <= games.len(),
    ensures
        spec_find_game_from(games, gen_id, i) == (match spec_find_game(
            games.subrange(i, games.len() as int),
            gen_id,
        ) {
            Some(k) => Some(i + k),
            None => None,
        }),
    decreases games.len() - i,
{
    if i < games.len() {
        lemma_find_game_from(games, gen_id, i + 1);
        assert(games.subrange(i, games.len() as int).drop_first() =~= games.subrange(
            i + 1,
            games.len() as int,
        ));
    }
}

} // verus!
