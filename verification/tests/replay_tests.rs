use threes::board::Direction;
use threes::game::GameLog;
use threes::replay::{find_game_log, PlayedGame, TrainingOutcomes};

fn outcomes_with(games: Vec<PlayedGame>) -> TrainingOutcomes {
    TrainingOutcomes { games_played: games }
}

#[test]
fn test_find_game_log() {
    let outcomes = outcomes_with(vec![
        PlayedGame { gen_id: 0, score: 10, game_log: None },
        PlayedGame {
            gen_id: 1,
            score: 33,
            game_log: Some(GameLog { seed: 42, moves: vec![Direction::Down, Direction::Left] }),
        },
        PlayedGame {
            gen_id: 1,
            score: 99,
            game_log: Some(GameLog { seed: 7, moves: vec![Direction::Up] }),
        },
    ]);
    // the first matching generation wins
    let log = find_game_log(&outcomes, 1).unwrap();
    assert_eq!(log.seed, 42);
    assert_eq!(log.moves, vec![Direction::Down, Direction::Left]);
    // a game recorded without logging yields nothing
    assert!(find_game_log(&outcomes, 0).is_none());
    // an unknown generation yields nothing
    assert!(find_game_log(&outcomes, 5).is_none());
}

#[test]
fn test_replayed_game_matches_original() {
    // a finished game's log, fed back into a fresh game with the same seed,
    // reproduces the same final board and score
    let mut game = threes::game::Game::new(Some(13), true);
    let result = loop {
        let moves = game.available_moves();
        assert!(!moves.is_empty());
        match game.update(moves[0]) {
            threes::game::MoveResult::Moved(Some(result)) => break result,
            threes::game::MoveResult::Moved(None) => {}
            threes::game::MoveResult::Failed => panic!("an available move was refused"),
        }
    };
    let log = result.log.unwrap();
    assert_eq!(log.seed, 13);
    let mut replayed = threes::game::Game::new(Some(log.seed), false);
    for d in &log.moves {
        match replayed.update(*d) {
            threes::game::MoveResult::Failed => panic!("a logged move was refused on replay"),
            threes::game::MoveResult::Moved(_) => {}
        }
    }
    assert_eq!(replayed.cur_board, result.final_board);
    assert_eq!(replayed.cur_score(), result.score);
    assert_eq!(replayed.num_moves(), result.num_moves);
}
