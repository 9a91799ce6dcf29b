use gomoku::{make_board, Board, GameError, Intersection, Position};
use gomoku::{game_is_tie, position_available};

fn board_of(n: usize) -> Board {
    make_board(n).unwrap()
}

#[test]
fn test_board() {
    let n = 15;
    let board = make_board(n).unwrap();
    assert_eq!(n, board.len());
    for row in board.rows() {
        assert_eq!(n, row.len());
        for intersection in row {
            assert_eq!(Intersection::Empty, *intersection);
        }
    }
}

#[test]
fn test_game_is_tie() {
    let board_size = 15;
    let mut board = make_board(board_size).unwrap();

    for i in 0..board_size {
        for j in 0..board_size {
            assert!(!game_is_tie(&board));
            board.set(i, j, Intersection::Player(0)).unwrap();
        }
    }
    assert!(game_is_tie(&board));
}

#[test]
fn board_of_side_zero_is_refused() {
    assert_eq!(Err(GameError::InvalidSize), make_board(0));
}

#[test]
fn board_of_side_one_has_one_empty_cell() {
    let board = board_of(1);
    assert_eq!(1, board.len());
    assert_eq!(Ok(Intersection::Empty), board.get(0, 0));
    assert_eq!(Err(GameError::OutOfBounds), board.get(0, 1));
    assert_eq!(Err(GameError::OutOfBounds), board.get(1, 0));
}

#[test]
fn every_cell_of_a_new_board_reads_empty() {
    for n in 1..8 {
        let board = board_of(n);
        for row in 0..n {
            for col in 0..n {
                assert_eq!(Ok(Intersection::Empty), board.get(row, col));
                assert_eq!(Ok(true), position_available(&Position(row, col), &board));
            }
        }
    }
}

#[test]
fn get_outside_the_board_is_out_of_bounds() {
    let board = board_of(4);
    assert_eq!(Err(GameError::OutOfBounds), board.get(4, 0));
    assert_eq!(Err(GameError::OutOfBounds), board.get(0, 4));
    assert_eq!(Err(GameError::OutOfBounds), board.get(4, 4));
    assert_eq!(Err(GameError::OutOfBounds), board.get(usize::MAX, usize::MAX));
    assert_eq!(Ok(Intersection::Empty), board.get(3, 3));
}

#[test]
fn set_outside_the_board_changes_nothing() {
    let mut board = board_of(3);
    board.set(1, 1, Intersection::Player(1)).unwrap();
    let mut same = board_of(3);
    same.set(1, 1, Intersection::Player(1)).unwrap();
    assert_eq!(Err(GameError::OutOfBounds), board.set(3, 0, Intersection::Player(0)));
    assert_eq!(Err(GameError::OutOfBounds), board.set(0, 3, Intersection::Player(0)));
    assert_eq!(Err(GameError::OutOfBounds), board.set(usize::MAX, 1, Intersection::Player(0)));
    assert_eq!(same, board);
}

#[test]
fn set_then_get_reads_the_mark_back() {
    let mut board = board_of(5);
    assert_eq!(Ok(true), position_available(&Position(2, 3), &board));
    assert_eq!(Ok(()), board.set(2, 3, Intersection::Player(1)));
    assert_eq!(Ok(Intersection::Player(1)), board.get(2, 3));
    assert_eq!(Ok(false), position_available(&Position(2, 3), &board));
    for row in 0..5 {
        for col in 0..5 {
            if (row, col) != (2, 3) {
                assert_eq!(Ok(Intersection::Empty), board.get(row, col));
            }
        }
    }
    assert_eq!(5, board.len());
}

#[test]
fn set_overwrites_whatever_the_cell_held() {
    let mut board = board_of(2);
    board.set(0, 1, Intersection::Player(0)).unwrap();
    board.set(0, 1, Intersection::Player(7)).unwrap();
    assert_eq!(Ok(Intersection::Player(7)), board.get(0, 1));
    board.set(0, 1, Intersection::Empty).unwrap();
    assert_eq!(Ok(Intersection::Empty), board.get(0, 1));
    assert_eq!(Ok(true), position_available(&Position(0, 1), &board));
}

#[test]
fn rows_show_what_get_shows() {
    let mut board = board_of(3);
    board.set(0, 2, Intersection::Player(0)).unwrap();
    board.set(2, 1, Intersection::Player(1)).unwrap();
    let rows = board.rows();
    assert_eq!(3, rows.len());
    for row in 0..3 {
        assert_eq!(3, rows[row].len());
        for col in 0..3 {
            assert_eq!(Ok(rows[row][col]), board.get(row, col));
        }
    }
    assert_eq!(Intersection::Player(0), rows[0][2]);
    assert_eq!(Intersection::Player(1), rows[2][1]);
}

#[test]
fn position_outside_the_board_is_an_error_not_an_answer() {
    let mut board = board_of(15);
    board.set(14, 14, Intersection::Player(0)).unwrap();
    assert_eq!(Err(GameError::OutOfBounds), position_available(&Position(15, 0), &board));
    assert_eq!(Err(GameError::OutOfBounds), position_available(&Position(0, 15), &board));
    assert_eq!(Err(GameError::OutOfBounds), position_available(&Position(15, 15), &board));
    assert_eq!(Err(GameError::OutOfBounds), position_available(&Position(200, 3), &board));
    assert_eq!(Ok(false), position_available(&Position(14, 14), &board));
    assert_eq!(Ok(true), position_available(&Position(14, 13), &board));
}

#[test]
fn tie_comes_with_the_last_cell_in_any_order() {
    let orders: [[(usize, usize); 4]; 3] = [
        [(0, 0), (0, 1), (1, 0), (1, 1)],
        [(1, 1), (1, 0), (0, 1), (0, 0)],
        [(1, 0), (0, 1), (1, 1), (0, 0)],
    ];
    for order in orders {
        let mut board = board_of(2);
        for (k, (row, col)) in order.iter().enumerate() {
            assert!(!game_is_tie(&board));
            board.set(*row, *col, Intersection::Player(k % 2)).unwrap();
        }
        assert!(game_is_tie(&board));
        board.set(0, 0, Intersection::Player(5)).unwrap();
        assert!(game_is_tie(&board));
        board.set(1, 0, Intersection::Empty).unwrap();
        assert!(!game_is_tie(&board));
    }
}

#[test]
fn one_empty_cell_anywhere_means_no_tie() {
    let n = 4;
    for hole_row in 0..n {
        for hole_col in 0..n {
            let mut board = board_of(n);
            for row in 0..n {
                for col in 0..n {
                    if (row, col) != (hole_row, hole_col) {
                        board.set(row, col, Intersection::Player(1)).unwrap();
                    }
                }
            }
            assert!(!game_is_tie(&board));
            board.set(hole_row, hole_col, Intersection::Player(0)).unwrap();
            assert!(game_is_tie(&board));
        }
    }
}
