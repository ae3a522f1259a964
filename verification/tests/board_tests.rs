use threes::board::{combine, shift, Board, Rank};

#[test]
fn test_shift() {
    // Test simple shifting for forwards and backwards
    assert_eq!(shift(&[0, 0, 0, 0], false), ([0, 0, 0, 0], false));
    assert_eq!(shift(&[1, 0, 0, 0], false), ([1, 0, 0, 0], false));
    assert_eq!(shift(&[0, 1, 0, 0], false), ([1, 0, 0, 0], true));
    assert_eq!(shift(&[1, 1, 0, 0], false), ([1, 1, 0, 0], false));
    assert_eq!(shift(&[1, 0, 0, 1], false), ([1, 0, 1, 0], true));
    assert_eq!(shift(&[1, 1, 1, 1], false), ([1, 1, 1, 1], false));
    assert_eq!(shift(&[0, 0, 0, 0], true), ([0, 0, 0, 0], false));
    assert_eq!(shift(&[0, 0, 0, 1], true), ([0, 0, 0, 1], false));
    assert_eq!(shift(&[0, 0, 1, 0], true), ([0, 0, 0, 1], true));
    assert_eq!(shift(&[0, 0, 1, 1], true), ([0, 0, 1, 1], false));
    assert_eq!(shift(&[1, 0, 0, 1], true), ([0, 1, 0, 1], true));
    assert_eq!(shift(&[1, 1, 1, 1], true), ([1, 1, 1, 1], false));

    // Test combining
    assert_eq!(shift(&[1, 2, 0, 0], false), ([3, 0, 0, 0], true));
    assert_eq!(shift(&[2, 1, 0, 0], false), ([3, 0, 0, 0], true));
    assert_eq!(shift(&[3, 3, 0, 0], false), ([6, 0, 0, 0], true));
    assert_eq!(shift(&[3, 6, 0, 0], false), ([3, 6, 0, 0], false));
    assert_eq!(shift(&[6, 6, 0, 0], false), ([12, 0, 0, 0], true));
}

#[test]
fn test_board_traits() {
    let zero_blocks: [Rank; 16] = [0; 16];
    assert_eq!(zero_blocks, zero_blocks);
    assert_eq!(Board::new().values(), zero_blocks);
}

#[test]
fn test_manipulation() {
    let b = Board::from_rows(&[[1, 2, 3, 6], [3, 3, 6, 6], [3, 3, 6, 6], [3, 3, 6, 6]]);
    assert_eq!(b, b);
    let mut board = Board::new();
    board.set_row(0, &[1, 2, 8, 4]);
    assert_eq!(
        board,
        Board::from_rows(&[[1, 2, 8, 4], [0, 0, 0, 0], [0, 0, 0, 0], [0, 0, 0, 0]])
    );
}

#[test]
fn test_combine_rules() {
    assert_eq!(combine(1, 2), Some(3));
    assert_eq!(combine(2, 1), Some(3));
    assert_eq!(combine(1, 1), None);
    assert_eq!(combine(2, 2), None);
    assert_eq!(combine(3, 3), Some(6));
    assert_eq!(combine(6, 6), Some(12));
    assert_eq!(combine(0, 3), None);
    assert_eq!(combine(3, 0), None);
    assert_eq!(combine(3, 6), None);
}

#[test]
fn test_single_merge_per_pass() {
    // four equal mergeable tiles merge exactly one pair per pass
    assert_eq!(shift(&[3, 3, 3, 3], false), ([6, 3, 3, 0], true));
    assert_eq!(shift(&[3, 3, 3, 3], true), ([0, 3, 3, 6], true));
    assert_eq!(shift(&[6, 6, 6, 6], false), ([12, 6, 6, 0], true));
}

#[test]
fn test_shift_idempotent_examples() {
    // already compacted, nothing mergeable: reports no change
    assert_eq!(shift(&[6, 3, 0, 0], false), ([6, 3, 0, 0], false));
    assert_eq!(shift(&[1, 1, 3, 2], false), ([1, 1, 3, 2], false));
    assert_eq!(shift(&[0, 0, 12, 3], true), ([0, 0, 12, 3], false));
}

#[test]
fn test_rows_cols() {
    let b = Board::from_rows(&[[1, 2, 3, 6], [0, 0, 0, 0], [0, 3, 0, 0], [0, 0, 0, 12]]);
    assert_eq!(b.rows()[0], [1, 2, 3, 6]);
    assert_eq!(b.rows()[2], [0, 3, 0, 0]);
    assert_eq!(b.cols()[1], [2, 0, 3, 0]);
    assert_eq!(b.cols()[3], [6, 0, 0, 12]);
    let mut c = b;
    c.set_value(1, 1, 24);
    assert_eq!(c.rows()[1], [0, 24, 0, 0]);
    assert!(!c.is_empty());
    assert!(Board::new().is_empty());
}

#[test]
fn test_shove() {
    // a shove slides each tile one step toward the pushed edge
    let mut b = Board::from_rows(&[[1, 0, 0, 0], [2, 0, 0, 0], [0, 0, 0, 0], [0, 0, 0, 0]]);
    let moved = b.shove(threes::board::Direction::Down);
    assert!(moved);
    assert_eq!(
        b,
        Board::from_rows(&[[0, 0, 0, 0], [1, 0, 0, 0], [2, 0, 0, 0], [0, 0, 0, 0]])
    );
    // adjacent 2 over 1 on the bottom edge combine into a 3
    let mut c = Board::from_rows(&[[0, 0, 0, 0], [0, 0, 0, 0], [2, 0, 0, 0], [1, 0, 0, 0]]);
    let moved2 = c.shove(threes::board::Direction::Down);
    assert!(moved2);
    assert_eq!(
        c,
        Board::from_rows(&[[0, 0, 0, 0], [0, 0, 0, 0], [0, 0, 0, 0], [3, 0, 0, 0]])
    );
    // a tile already resting on the pushed edge does not move
    let mut e = Board::from_rows(&[[0, 0, 0, 0], [0, 0, 0, 0], [0, 0, 0, 0], [3, 0, 0, 0]]);
    let moved3 = e.shove(threes::board::Direction::Down);
    assert!(!moved3);
}

#[test]
fn test_simple_render() {
    let b = Board::from_rows(&[[1, 2, 3, 6], [0, 0, 0, 0], [0, 0, 12, 0], [0, 0, 0, 98304]]);
    let expected = "  1|  2|  3|  6\r\n  0|  0|  0|  0\r\n  0|  0| 12|  0\r\n  0|  0|  0|98304";
    assert_eq!(b.simple_render(), expected);
}
