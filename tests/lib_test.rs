use songbook::reversi::{apply_move, count_pieces, create_initial_board, has_valid_moves, is_valid_move, parse_input};

#[test]
fn test_parse_input() {
    assert_eq!(parse_input("cd"), Some((2, 3)));
    assert_eq!(parse_input("ah"), Some((0, 7)));
    assert_eq!(parse_input("hh"), Some((7, 7)));

    assert_eq!(parse_input("i8"), None);
    assert_eq!(parse_input("a9"), None);
    assert_eq!(parse_input("1a"), None);
    assert_eq!(parse_input("aa "), None);
}

#[test]
fn test_create_initial_board() {
    let board = create_initial_board();
    assert_eq!(board[3][3], 'W');
    assert_eq!(board[3][4], 'B');
    assert_eq!(board[4][3], 'B');
    assert_eq!(board[4][4], 'W');
}

#[test]
fn test_is_valid_move() {
    let board = create_initial_board();
    assert!(is_valid_move(&board, 'B', 2, 3));
    assert!(!is_valid_move(&board, 'B', 3, 3));
    assert!(is_valid_move(&board, 'W', 2, 4));
}

#[test]
fn test_apply_move() {
    let mut board = create_initial_board();
    apply_move(&mut board, 'B', 2, 3);
    assert_eq!(board[2][3], 'B');
    assert_eq!(board[3][3], 'B');
}

#[test]
fn test_count_pieces() {
    let board = create_initial_board();
    assert_eq!(count_pieces(&board), (2, 2));

    let mut board = board;
    apply_move(&mut board, 'B', 2, 3);
    assert_eq!(count_pieces(&board), (4, 1));
}

#[test]
fn test_has_valid_moves() {
    let board = create_initial_board();
    assert!(has_valid_moves(&board, 'B'));
    assert!(has_valid_moves(&board, 'W'));

    let mut board = board;
    apply_move(&mut board, 'B', 2, 3);
    assert!(has_valid_moves(&board, 'W'));
}
