use songbook::reversi::{
    apply_move, count_pieces, create_initial_board, has_valid_moves, is_valid_move, outcome, parse_input, Board,
    Outcome,
};

fn empty_board() -> Board {
    [['.'; 8]; 8]
}

#[test]
fn parse_accepts_upper_case_letters() {
    assert_eq!(parse_input("CD"), Some((2, 3)));
    assert_eq!(parse_input("aH"), Some((0, 7)));
}

#[test]
fn parse_refuses_short_and_non_ascii_input() {
    assert_eq!(parse_input(""), None);
    assert_eq!(parse_input("a"), None);
    assert_eq!(parse_input("é"), None);
    assert_eq!(parse_input("aé"), None);
}

#[test]
fn initial_board_is_otherwise_empty() {
    let board = create_initial_board();
    let mut empty = 0;
    for row in board.iter() {
        for &cell in row.iter() {
            if cell == '.' {
                empty += 1;
            }
        }
    }
    assert_eq!(empty, 60);
}

#[test]
fn adjacent_own_piece_does_not_flank() {
    let mut board = empty_board();
    board[0][1] = 'B';
    assert!(!is_valid_move(&board, 'B', 0, 0));
}

#[test]
fn run_ending_at_the_edge_does_not_flank() {
    let mut board = empty_board();
    board[0][1] = 'W';
    board[0][2] = 'W';
    assert!(!is_valid_move(&board, 'B', 0, 0));
    assert!(!has_valid_moves(&board, 'B'));
}

#[test]
fn long_diagonal_run_flips_every_piece() {
    let mut board = empty_board();
    for i in 1..7 {
        board[i][i] = 'W';
    }
    board[7][7] = 'B';
    assert!(is_valid_move(&board, 'B', 0, 0));
    apply_move(&mut board, 'B', 0, 0);
    for i in 0..8 {
        assert_eq!(board[i][i], 'B');
    }
    assert_eq!(count_pieces(&board), (8, 0));
}

#[test]
fn move_flips_in_several_directions_only_closed_runs() {
    let mut board = empty_board();
    // closed run to the east
    board[3][4] = 'W';
    board[3][5] = 'B';
    // closed run to the south
    board[4][3] = 'W';
    board[5][3] = 'W';
    board[6][3] = 'B';
    // open run to the west
    board[3][2] = 'W';
    apply_move(&mut board, 'B', 3, 3);
    assert_eq!(board[3][3], 'B');
    assert_eq!(board[3][4], 'B');
    assert_eq!(board[4][3], 'B');
    assert_eq!(board[5][3], 'B');
    assert_eq!(board[3][2], 'W');
    assert_eq!(count_pieces(&board), (6, 1));
}

#[test]
fn white_move_flips_black() {
    let mut board = create_initial_board();
    apply_move(&mut board, 'W', 2, 4);
    assert_eq!(board[3][4], 'W');
    assert_eq!(count_pieces(&board), (1, 4));
}

#[test]
fn full_board_has_no_moves() {
    let board: Board = [['B'; 8]; 8];
    assert!(!has_valid_moves(&board, 'W'));
    assert!(!has_valid_moves(&board, 'B'));
    assert_eq!(count_pieces(&board), (64, 0));
}

#[test]
fn outcome_reports_margin_or_draw() {
    let board = create_initial_board();
    assert_eq!(outcome(&board), Outcome::Draw);
    let mut board = board;
    apply_move(&mut board, 'B', 2, 3);
    assert_eq!(outcome(&board), Outcome::BlackWins(3));
    let mut white = empty_board();
    white[0][0] = 'W';
    assert_eq!(outcome(&white), Outcome::WhiteWins(1));
}
