use bitchess::board::{get_starting_chessboard, ChessBoard, TypePiece};
use bitchess::get_moves::encode_move;
use bitchess::notation::{format_mask, get_notation_from_move, index_to_square};

#[test]
fn square_names() {
    assert_eq!(index_to_square(0), "a8");
    assert_eq!(index_to_square(7), "h8");
    assert_eq!(index_to_square(36), "e4");
    assert_eq!(index_to_square(56), "a1");
    assert_eq!(index_to_square(63), "h1");
}

#[test]
fn move_notation() {
    assert_eq!(get_notation_from_move(encode_move(0, 0, 52, 36)), "e2e4");
    assert_eq!(get_notation_from_move(encode_move(1, 0, 60, 62)), "e1g1");
    assert_eq!(get_notation_from_move(encode_move(2, 3, 8, 1)), "a7b8");
    assert_eq!(get_notation_from_move(0), "a8a8");
}

#[test]
fn move_code_layout() {
    assert_eq!(encode_move(0, 0, 52, 36), 3364);
    assert_eq!(encode_move(1, 0, 60, 62), 0b0100_1111_0011_1110);
    assert_eq!(encode_move(2, 1, 8, 0), 0b1001_0010_0000_0000);
    assert_eq!(encode_move(3, 3, 63, 63), 0xffff);
}

#[test]
fn fen_of_the_starting_position() {
    assert_eq!(
        get_starting_chessboard().get_fen(),
        "rnbqkbnr/pppppppp/8/8/8/8/PPPPPPPP/RNBQKBNR w KQkq"
    );
}

#[test]
fn fen_with_runs_and_without_rights() {
    let mut squares = [TypePiece::Empty; 64];
    squares[4] = TypePiece::BlackKing;
    squares[9] = TypePiece::BlackPawn;
    squares[11] = TypePiece::BlackQueen;
    squares[15] = TypePiece::WhiteBishop;
    squares[60] = TypePiece::WhiteKing;
    squares[56] = TypePiece::WhiteRook;
    let board = ChessBoard::from_parts(squares, false, [false; 2], [false; 2], 0).expect("valid");
    assert_eq!(board.get_fen(), "4k3/1p1q3B/8/8/8/8/8/R3K3 b -");
    let board =
        ChessBoard::from_parts(squares, true, [false; 2], [false, true], 0).expect("valid");
    assert_eq!(board.get_fen(), "4k3/1p1q3B/8/8/8/8/8/R3K3 w Q");
}

#[test]
fn mask_text() {
    assert_eq!(
        format_mask(1),
        "00000000\n00000000\n00000000\n00000000\n00000000\n00000000\n00000000\n00000001"
    );
    assert_eq!(
        format_mask((1 << 63) | (1 << 8)),
        "10000000\n00000000\n00000000\n00000000\n00000000\n00000000\n00000001\n00000000"
    );
    assert_eq!(format_mask(u64::MAX).len(), 71);
}

#[test]
fn different_boards_have_different_fen() {
    let mut squares = [TypePiece::Empty; 64];
    squares[4] = TypePiece::BlackKing;
    squares[60] = TypePiece::WhiteKing;
    squares[63] = TypePiece::WhiteRook;
    squares[28] = TypePiece::BlackPawn;
    let base = ChessBoard::from_parts(squares, true, [false; 2], [false; 2], 0).expect("valid");
    let other_side =
        ChessBoard::from_parts(squares, false, [false; 2], [false; 2], 0).expect("valid");
    let with_right =
        ChessBoard::from_parts(squares, true, [false, true], [false; 2], 0).expect("valid");
    let with_target =
        ChessBoard::from_parts(squares, true, [false; 2], [false; 2], 1 << 20).expect("valid");
    let mut moved = squares;
    moved[28] = TypePiece::Empty;
    moved[29] = TypePiece::BlackPawn;
    let other_squares =
        ChessBoard::from_parts(moved, true, [false; 2], [false; 2], 0).expect("valid");
    assert_eq!(base.get_fen(), "4k3/8/8/4p3/8/8/8/4K2R w -");
    assert_ne!(base.get_fen(), other_side.get_fen());
    assert_ne!(base.get_fen(), with_right.get_fen());
    assert_ne!(base.get_fen(), other_squares.get_fen());
    assert_eq!(base.get_fen(), with_target.get_fen());
    assert_ne!(base, with_target);
}
