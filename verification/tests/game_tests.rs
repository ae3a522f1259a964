use threes::board::{Board, Direction};
use threes::game::{Game, MoveResult};

#[test]
fn test_full_play() {
    for do_logging in vec![false, true] {
        let mut game = Game::new(None, do_logging);

        let mut i = 0;
        let mut moves_taken = vec![];
        let result = loop {
            println!("Board #{}:\n{}", i, game.render());
            if let Some(game_result) = game.check_game_over() {
                break game_result;
            }

            let moves = game.available_moves();
            // We just checked for game over
            assert_ne!(moves.len(), 0);

            let first_move = moves[0];
            moves_taken.push(first_move);

            let prev_score = game.cur_score();

            let move_result = game.update(first_move);
            if let MoveResult::Failed = move_result {
                // We shouldn't be able to take a failed move
                assert!(false);
            }
            assert!(game.cur_score() >= prev_score);
            i += 1;
        };
        assert_ne!(result.num_moves, 0);
        assert_ne!(result.score, 0);

        // Log tests
        assert_eq!(result.log.is_some(), do_logging);
        if do_logging {
            let log = result.log.unwrap();
            assert_eq!(log.moves.len() as i32, result.num_moves);
            assert_eq!(log.moves, moves_taken);
        }
    }
}

#[test]
fn test_score() {
    let b_3 = Board::from_rows(&[[3, 0, 0, 0], [0, 0, 0, 0], [0, 0, 0, 0], [0, 0, 0, 0]]);
    let b_6 = Board::from_rows(&[[6, 0, 0, 0], [0, 0, 0, 0], [0, 0, 0, 0], [0, 0, 0, 0]]);
    let b_12 = Board::from_rows(&[[12, 0, 0, 0], [0, 0, 0, 0], [0, 0, 0, 0], [0, 0, 0, 0]]);

    let b_33 = Board::from_rows(&[[3, 3, 0, 0], [0, 0, 0, 0], [0, 0, 0, 0], [0, 0, 0, 0]]);
    assert_eq!(Game::score(&b_3), 3);
    assert_eq!(Game::score(&b_6), 9);
    assert_eq!(Game::score(&b_12), 27);
    assert_eq!(Game::score(&b_33), 6);
}

#[test]
fn test_first_move_always_accepted() {
    // on an empty board nothing can shift, yet every first move is taken
    let mut game = Game::new(Some(3), false);
    assert_eq!(game.available_moves().len(), 4);
    let r = game.update(Direction::Up);
    assert!(matches!(r, MoveResult::Moved(_)));
    assert_eq!(game.num_moves(), 1);
    assert!(!game.cur_board.is_empty());
}

#[test]
fn test_determinism() {
    // two games with one seed, driven alike, stay identical throughout
    let mut g1 = Game::new(Some(42), true);
    let mut g2 = Game::new(Some(42), true);
    for _turn in 0..40 {
        assert_eq!(g1.cur_board, g2.cur_board);
        assert_eq!(g1.cur_score(), g2.cur_score());
        assert_eq!(g1.render(), g2.render());
        assert_eq!(g1.available_moves(), g2.available_moves());
        let moves = g1.available_moves();
        if moves.is_empty() {
            break;
        }
        let d = moves[moves.len() - 1];
        let r1 = g1.update(d);
        let r2 = g2.update(d);
        match (r1, r2) {
            (MoveResult::Moved(a), MoveResult::Moved(b)) => {
                assert_eq!(a.is_some(), b.is_some());
                if let (Some(ra), Some(rb)) = (a, b) {
                    assert_eq!(ra.score, rb.score);
                    assert_eq!(ra.final_board, rb.final_board);
                    break;
                }
            }
            (MoveResult::Failed, MoveResult::Failed) => {}
            _ => panic!("the two games diverged"),
        }
    }
}

/// The rank the sidebar announces as coming next.
fn announced_rank(render: &str) -> i32 {
    let first_line = render.split("\r\n").next().unwrap();
    let marker = "| <- next up";
    assert!(first_line.ends_with(marker));
    let before = &first_line[..first_line.len() - marker.len()];
    let cell = &before[before.len() - 3..];
    cell.trim().parse().unwrap()
}

fn edge_cells(d: Direction) -> Vec<usize> {
    match d {
        Direction::Down => vec![0, 1, 2, 3],
        Direction::Up => vec![12, 13, 14, 15],
        Direction::Left => vec![3, 7, 11, 15],
        Direction::Right => vec![0, 4, 8, 12],
    }
}

#[test]
fn test_spawn_legality() {
    // after every accepted move the spawned tile carries the announced rank
    // and sits on a previously free cell of the opened edge
    let mut game = Game::new(Some(7), false);
    for _turn in 0..60 {
        let moves = game.available_moves();
        if moves.is_empty() {
            break;
        }
        let d = moves[0];
        let announced = announced_rank(&game.render());
        let mut shoved = game.cur_board;
        shoved.shove(d);
        let was_empty = game.cur_board.is_empty();
        match game.update(d) {
            MoveResult::Failed => panic!("an available move was refused"),
            MoveResult::Moved(_) => {}
        }
        let before = shoved.values();
        let after = game.cur_board.values();
        let mut changed = vec![];
        for i in 0..16 {
            if before[i] != after[i] {
                changed.push(i);
            }
        }
        assert_eq!(changed.len(), 1);
        let cell = changed[0];
        assert_eq!(before[cell], 0);
        assert_eq!(after[cell], announced);
        assert!(edge_cells(d).contains(&cell));
        let _ = was_empty;
    }
}

#[test]
fn test_terminal_detection() {
    // drive a game to its end: the final snapshot is produced exactly when
    // no direction changes anything, and later updates are refused
    let mut game = Game::new(Some(11), false);
    let result = loop {
        let moves = game.available_moves();
        if moves.is_empty() {
            panic!("available_moves emptied without a terminal result");
        }
        match game.update(moves[0]) {
            MoveResult::Moved(Some(result)) => break result,
            MoveResult::Moved(None) => {}
            MoveResult::Failed => panic!("an available move was refused"),
        }
    };
    assert!(game.available_moves().is_empty());
    assert!(game.check_game_over().is_some());
    assert_eq!(game.cur_score(), result.score);
    assert_ne!(result.score, 0);
    for d in [Direction::Down, Direction::Up, Direction::Left, Direction::Right] {
        let r = game.update(d);
        assert!(matches!(r, MoveResult::Failed));
    }
    assert_eq!(game.cur_score(), result.score);
}

#[test]
fn test_refused_move_changes_nothing() {
    let mut game = Game::new(Some(9), false);
    for _turn in 0..30 {
        let avail = game.available_moves();
        if avail.is_empty() {
            break;
        }
        for d in [Direction::Down, Direction::Up, Direction::Left, Direction::Right] {
            if !avail.contains(&d) {
                let before = game.cur_board;
                let n = game.num_moves();
                let r = game.update(d);
                assert!(matches!(r, MoveResult::Failed));
                assert_eq!(game.cur_board, before);
                assert_eq!(game.num_moves(), n);
            }
        }
        game.update(avail[0]);
    }
}

#[test]
fn test_game_render_shape() {
    let game = Game::new(Some(1), false);
    let render = game.render();
    let lines: Vec<&str> = render.split("\r\n").collect();
    assert_eq!(lines.len(), 4);
    // an empty board renders blank cells
    assert!(lines[0].starts_with("   |   |   |   "));
    assert_eq!(lines[1], "   |   |   |   ");
    let announced = announced_rank(&render);
    assert!(announced == 1 || announced == 2);
}
