use bitchess::binary_mask::{generate_main_hashtables, MainHashtables};
use bitchess::board::{get_starting_chessboard, ChessBoard, TypePiece};
use bitchess::get_moves::{encode_move, MovesStruct};

fn tables() -> MainHashtables {
    generate_main_hashtables().ok().expect("tables")
}

fn board_with(
    pieces: &[(usize, TypePiece)],
    white: bool,
    king_side: [bool; 2],
    queen_side: [bool; 2],
    en_passant: u64,
) -> ChessBoard {
    let mut squares = [TypePiece::Empty; 64];
    for (sq, p) in pieces {
        squares[*sq] = *p;
    }
    ChessBoard::from_parts(squares, white, king_side, queen_side, en_passant).expect("a valid position")
}

fn generated(board: &ChessBoard, ma: &MainHashtables) -> Vec<u16> {
    let mut buf = MovesStruct::init();
    board.get_moves(ma, &mut buf);
    let mut v: Vec<u16> = buf.moves[..buf.move_number as usize].to_vec();
    v.sort();
    let n = v.len();
    v.dedup();
    assert_eq!(v.len(), n, "a move was listed twice");
    v
}

fn kind(m: u16) -> u16 {
    m >> 14
}

fn payload(m: u16) -> u16 {
    (m >> 12) & 3
}

fn from(m: u16) -> usize {
    ((m >> 6) & 63) as usize
}

fn to(m: u16) -> usize {
    (m & 63) as usize
}

fn check_invariants(b: &ChessBoard) {
    assert_eq!(b.board, b.players[0] | b.players[1]);
    assert_eq!(b.players[0] & b.players[1], 0);
    let mut union = 0u64;
    for i in 0..12 {
        union |= b.pieces[i];
        for j in 0..13 {
            if i != j {
                assert_eq!(b.pieces[i] & b.pieces[j], 0);
            }
        }
    }
    assert_eq!(union, b.board);
    assert_eq!(b.pieces[12], 0);
    for sq in 0..64 {
        for k in 0..12 {
            assert_eq!(b.pieces[k] >> sq & 1 == 1, b.pieces_by_index[sq].index() == k);
        }
    }
    assert!(b.en_passant.count_ones() <= 1);
    assert_eq!(b.pieces[0].count_ones(), 1);
    assert_eq!(b.pieces[6].count_ones(), 1);
}

#[test]
fn starting_position_has_twenty_moves() {
    let ma = tables();
    let board = get_starting_chessboard();
    check_invariants(&board);
    let moves = generated(&board, &ma);
    assert_eq!(moves.len(), 20);
    assert!(moves.iter().all(|m| kind(*m) == 0 && payload(*m) == 0));
    let pawn_moves = moves.iter().filter(|m| from(**m) >= 48 && from(**m) < 56).count();
    let knight_moves = moves.iter().filter(|m| from(**m) == 57 || from(**m) == 62).count();
    assert_eq!(pawn_moves, 16);
    assert_eq!(knight_moves, 4);
    for file in 0..8u16 {
        assert!(moves.contains(&encode_move(0, 0, 48 + file, 40 + file)));
        assert!(moves.contains(&encode_move(0, 0, 48 + file, 32 + file)));
    }
    for (f, t) in [(57, 40), (57, 42), (62, 45), (62, 47)] {
        assert!(moves.contains(&encode_move(0, 0, f, t)));
    }
}

#[test]
fn starting_position_fields() {
    let board = get_starting_chessboard();
    assert!(board.is_white_to_play);
    assert_eq!(board.king_side_castle, [true, true]);
    assert_eq!(board.queen_side_castle, [true, true]);
    assert_eq!(board.en_passant, 0);
    assert_eq!(board.board, 0xffff_0000_0000_ffff);
    assert_eq!(board.players[1], 0xffff_0000_0000_0000);
    assert_eq!(board.players[0], 0x0000_0000_0000_ffff);
    assert_eq!(board.pieces[TypePiece::WhitePawn.index()], 0x00ff_0000_0000_0000);
    assert_eq!(board.pieces[TypePiece::BlackKing.index()], 1 << 4);
    assert_eq!(board.piece_kind_at(60), TypePiece::WhiteKing);
    assert_eq!(board.piece_kind_at(59), TypePiece::WhiteQueen);
    assert_eq!(board.piece_kind_at(0), TypePiece::BlackRook);
    assert_eq!(board.piece_kind_at(1), TypePiece::BlackKnight);
    assert_eq!(board.piece_kind_at(2), TypePiece::BlackBishop);
    assert_eq!(board.piece_kind_at(3), TypePiece::BlackQueen);
    assert_eq!(board.piece_kind_at(30), TypePiece::Empty);
}

#[test]
fn lone_rook_has_fourteen_moves_from_every_square() {
    let ma = tables();
    for sq in 0..64usize {
        let board = board_with(&[(sq, TypePiece::WhiteRook)], true, [false; 2], [false; 2], 0);
        let moves = generated(&board, &ma);
        assert_eq!(moves.len(), 14);
        for m in &moves {
            assert_eq!(kind(*m), 0);
            assert_eq!(from(*m), sq);
            assert!(to(*m) != sq);
            assert!(to(*m) % 8 == sq % 8 || to(*m) / 8 == sq / 8);
        }
    }
}

#[test]
fn rook_moves_stop_at_blockers() {
    let ma = tables();
    let board = board_with(
        &[
            (0, TypePiece::WhiteRook),
            (3, TypePiece::BlackKnight),
            (24, TypePiece::WhiteKnight),
        ],
        true,
        [false; 2],
        [false; 2],
        0,
    );
    let mut targets: Vec<usize> = generated(&board, &ma)
        .iter()
        .filter(|m| from(**m) == 0)
        .map(|m| to(*m))
        .collect();
    targets.sort();
    assert_eq!(targets, vec![1, 2, 3, 8, 16]);
}

#[test]
fn double_push_sets_en_passant_and_capture_removes_the_pawn() {
    let ma = tables();
    let mut board = board_with(
        &[
            (60, TypePiece::WhiteKing),
            (4, TypePiece::BlackKing),
            (48, TypePiece::WhitePawn),
            (33, TypePiece::BlackPawn),
        ],
        true,
        [false; 2],
        [false; 2],
        0,
    );
    let push = encode_move(0, 0, 48, 32);
    assert!(generated(&board, &ma).contains(&push));
    board.make_move(push);
    check_invariants(&board);
    assert_eq!(board.en_passant, 1u64 << 40);
    assert!(!board.is_white_to_play);
    let capture = encode_move(0, 0, 33, 40);
    assert!(generated(&board, &ma).contains(&capture));
    board.make_move(capture);
    check_invariants(&board);
    assert_eq!(board.pieces_by_index[32], TypePiece::Empty);
    assert_eq!(board.pieces_by_index[33], TypePiece::Empty);
    assert_eq!(board.pieces_by_index[40], TypePiece::BlackPawn);
    assert_eq!(board.pieces[TypePiece::WhitePawn.index()], 0);
    assert_eq!(board.en_passant, 0);
    assert!(board.is_white_to_play);
}

#[test]
fn black_double_push_and_white_capture_in_passing() {
    let ma = tables();
    let mut board = board_with(
        &[
            (60, TypePiece::WhiteKing),
            (4, TypePiece::BlackKing),
            (12, TypePiece::BlackPawn),
            (27, TypePiece::WhitePawn),
        ],
        false,
        [false; 2],
        [false; 2],
        0,
    );
    board.make_move(encode_move(0, 0, 12, 28));
    assert_eq!(board.en_passant, 1u64 << 20);
    let capture = encode_move(0, 0, 27, 20);
    assert!(generated(&board, &ma).contains(&capture));
    board.make_move(capture);
    check_invariants(&board);
    assert_eq!(board.pieces_by_index[28], TypePiece::Empty);
    assert_eq!(board.pieces_by_index[20], TypePiece::WhitePawn);
    assert_eq!(board.pieces[TypePiece::BlackPawn.index()], 0);
}

#[test]
fn en_passant_lapses_after_one_move() {
    let ma = tables();
    let mut board = board_with(
        &[
            (60, TypePiece::WhiteKing),
            (4, TypePiece::BlackKing),
            (48, TypePiece::WhitePawn),
            (33, TypePiece::BlackPawn),
        ],
        true,
        [false; 2],
        [false; 2],
        0,
    );
    board.make_move(encode_move(0, 0, 48, 32));
    board.make_move(encode_move(0, 0, 4, 5));
    assert_eq!(board.en_passant, 0);
    board.make_move(encode_move(0, 0, 60, 61));
    assert!(!generated(&board, &ma).contains(&encode_move(0, 0, 33, 40)));
}

#[test]
fn capturing_promotion_gives_four_codes() {
    let ma = tables();
    let board = board_with(
        &[
            (60, TypePiece::WhiteKing),
            (4, TypePiece::BlackKing),
            (8, TypePiece::WhitePawn),
            (1, TypePiece::BlackRook),
        ],
        true,
        [false; 2],
        [false; 2],
        0,
    );
    let moves = generated(&board, &ma);
    let pawn: Vec<u16> = moves.iter().copied().filter(|m| from(*m) == 8).collect();
    assert_eq!(pawn.len(), 8);
    for p in 0..4u16 {
        assert!(pawn.contains(&encode_move(2, p, 8, 1)));
        assert!(pawn.contains(&encode_move(2, p, 8, 0)));
    }
    assert!(pawn.iter().all(|m| kind(*m) == 2));
}

#[test]
fn pawn_blocked_by_the_rook_ahead_has_no_move() {
    let ma = tables();
    let board = board_with(
        &[
            (60, TypePiece::WhiteKing),
            (4, TypePiece::BlackKing),
            (8, TypePiece::WhitePawn),
            (0, TypePiece::BlackRook),
        ],
        true,
        [false; 2],
        [false; 2],
        0,
    );
    let moves = generated(&board, &ma);
    assert!(moves.iter().all(|m| from(*m) != 8));
    assert_eq!(moves.len(), 5);
}

#[test]
fn promotion_puts_the_chosen_piece() {
    let start = board_with(
        &[
            (60, TypePiece::WhiteKing),
            (4, TypePiece::BlackKing),
            (9, TypePiece::WhitePawn),
            (0, TypePiece::BlackRook),
            (55, TypePiece::BlackPawn),
        ],
        true,
        [false; 2],
        [true, false],
        0,
    );
    let expected = [
        TypePiece::WhiteQueen,
        TypePiece::WhiteRook,
        TypePiece::WhiteBishop,
        TypePiece::WhiteKnight,
    ];
    for p in 0..4u16 {
        let mut board = start;
        board.make_move(encode_move(2, p, 9, 0));
        check_invariants(&board);
        assert_eq!(board.pieces_by_index[0], expected[p as usize]);
        assert_eq!(board.pieces_by_index[9], TypePiece::Empty);
        assert_eq!(board.pieces[TypePiece::BlackRook.index()], 0);
        assert_eq!(board.queen_side_castle, [false, false]);
        assert_eq!(board.en_passant, 0);
        assert!(!board.is_white_to_play);
    }
    let mut board = start;
    board.make_move(encode_move(0, 0, 60, 59));
    let expected_black = [
        TypePiece::BlackQueen,
        TypePiece::BlackRook,
        TypePiece::BlackBishop,
        TypePiece::BlackKnight,
    ];
    for p in 0..4u16 {
        let mut b = board;
        b.make_move(encode_move(2, p, 55, 63));
        check_invariants(&b);
        assert_eq!(b.pieces_by_index[63], expected_black[p as usize]);
    }
}

#[test]
fn king_side_castling_white() {
    let ma = tables();
    let mut board = board_with(
        &[
            (60, TypePiece::WhiteKing),
            (63, TypePiece::WhiteRook),
            (4, TypePiece::BlackKing),
        ],
        true,
        [false, true],
        [false, false],
        0,
    );
    let moves = generated(&board, &ma);
    let castles: Vec<u16> = moves.iter().copied().filter(|m| kind(*m) == 1).collect();
    assert_eq!(castles, vec![encode_move(1, 0, 60, 62)]);
    assert_eq!(payload(castles[0]), 0);
    board.make_move(castles[0]);
    check_invariants(&board);
    assert_eq!(board.pieces_by_index[62], TypePiece::WhiteKing);
    assert_eq!(board.pieces_by_index[61], TypePiece::WhiteRook);
    assert_eq!(board.pieces_by_index[60], TypePiece::Empty);
    assert_eq!(board.pieces_by_index[63], TypePiece::Empty);
    assert_eq!(board.king_side_castle, [false, false]);
    assert_eq!(board.queen_side_castle, [false, false]);
    assert!(!board.is_white_to_play);
}

#[test]
fn all_four_castlings() {
    let ma = tables();
    let pieces = [
        (60, TypePiece::WhiteKing),
        (63, TypePiece::WhiteRook),
        (56, TypePiece::WhiteRook),
        (4, TypePiece::BlackKing),
        (7, TypePiece::BlackRook),
        (0, TypePiece::BlackRook),
    ];
    let white = board_with(&pieces, true, [true, true], [true, true], 0);
    let black = board_with(&pieces, false, [true, true], [true, true], 0);
    let w: Vec<u16> = generated(&white, &ma).into_iter().filter(|m| kind(*m) == 1).collect();
    let b: Vec<u16> = generated(&black, &ma).into_iter().filter(|m| kind(*m) == 1).collect();
    assert_eq!(w, vec![encode_move(1, 0, 60, 62), encode_move(1, 1, 60, 58)]);
    assert_eq!(b, vec![encode_move(1, 2, 4, 6), encode_move(1, 3, 4, 2)]);
    let cases = [
        (white, 1u16, 58usize, 59usize, 56usize, TypePiece::WhiteKing, TypePiece::WhiteRook),
        (black, 2, 6, 5, 7, TypePiece::BlackKing, TypePiece::BlackRook),
        (black, 3, 2, 3, 0, TypePiece::BlackKing, TypePiece::BlackRook),
    ];
    for (start, p, king_to, rook_to, rook_from, king, rook) in cases {
        let mut board = start;
        let king_from = if p < 2 { 60 } else { 4 };
        board.make_move(encode_move(1, p, king_from as u16, king_to as u16));
        check_invariants(&board);
        assert_eq!(board.pieces_by_index[king_to], king);
        assert_eq!(board.pieces_by_index[rook_to], rook);
        assert_eq!(board.pieces_by_index[king_from], TypePiece::Empty);
        assert_eq!(board.pieces_by_index[rook_from], TypePiece::Empty);
        let c = if p < 2 { 1 } else { 0 };
        assert!(!board.king_side_castle[c] && !board.queen_side_castle[c]);
        assert!(board.king_side_castle[1 - c] && board.queen_side_castle[1 - c]);
        assert_eq!(board.en_passant, 0);
    }
}

#[test]
fn castling_needs_empty_squares_between() {
    let ma = tables();
    let board = board_with(
        &[
            (60, TypePiece::WhiteKing),
            (63, TypePiece::WhiteRook),
            (56, TypePiece::WhiteRook),
            (61, TypePiece::WhiteBishop),
            (57, TypePiece::BlackKnight),
            (4, TypePiece::BlackKing),
        ],
        true,
        [false, true],
        [false, true],
        0,
    );
    assert!(generated(&board, &ma).iter().all(|m| kind(*m) != 1));
}

#[test]
fn moving_rook_or_king_loses_rights() {
    let pieces = [
        (60, TypePiece::WhiteKing),
        (63, TypePiece::WhiteRook),
        (56, TypePiece::WhiteRook),
        (4, TypePiece::BlackKing),
        (7, TypePiece::BlackRook),
        (0, TypePiece::BlackRook),
    ];
    let start = board_with(&pieces, true, [true, true], [true, true], 0);
    let mut board = start;
    board.make_move(encode_move(0, 0, 63, 62));
    assert_eq!(board.king_side_castle, [true, false]);
    assert_eq!(board.queen_side_castle, [true, true]);
    let mut board = start;
    board.make_move(encode_move(0, 0, 56, 48));
    assert_eq!(board.queen_side_castle, [true, false]);
    assert_eq!(board.king_side_castle, [true, true]);
    let mut board = start;
    board.make_move(encode_move(0, 0, 60, 52));
    assert_eq!(board.king_side_castle, [true, false]);
    assert_eq!(board.queen_side_castle, [true, false]);
    let mut board = start;
    board.make_move(encode_move(0, 0, 63, 7));
    assert_eq!(board.king_side_castle, [false, false]);
    assert_eq!(board.queen_side_castle, [true, true]);
    let mut board = start;
    board.make_move(encode_move(0, 0, 56, 0));
    assert_eq!(board.queen_side_castle, [false, false]);
    assert_eq!(board.king_side_castle, [true, true]);
}

#[test]
fn e_pawn_two_squares() {
    let ma = tables();
    let mut board = get_starting_chessboard();
    board.make_move(encode_move(0, 0, 52, 36));
    check_invariants(&board);
    assert_eq!(board.get_fen(), "rnbqkbnr/pppppppp/8/8/4P3/8/PPPP1PPP/RNBQKBNR b KQkq");
    assert_eq!(board.pieces_by_index[36], TypePiece::WhitePawn);
    assert_eq!(board.en_passant, 1u64 << 44);
    assert!(!board.is_white_to_play);
    assert_eq!(generated(&board, &ma).len(), 20);
}

#[test]
fn six_plies_of_first_moves_keep_the_invariants() {
    let ma = tables();
    let mut board = get_starting_chessboard();
    let mut buf = MovesStruct::init();
    for _ in 0..6 {
        board.get_moves(&ma, &mut buf);
        assert!(buf.move_number > 0);
        board.make_move(buf.moves[0]);
        check_invariants(&board);
    }
    board.get_moves(&ma, &mut buf);
    assert!(buf.move_number > 0);
    assert!(board.is_white_to_play);
}

#[test]
fn applying_to_a_copy_leaves_the_position() {
    let ma = tables();
    let mut board = get_starting_chessboard();
    for ply in 0..4 {
        let moves = generated(&board, &ma);
        let saved = board;
        for m in &moves {
            let mut next = board;
            next.make_move(*m);
            assert_ne!(next, saved);
            assert_eq!(board, saved);
            check_invariants(&next);
        }
        board.make_move(moves[(ply * 7) % moves.len()]);
    }
}

#[test]
fn buffer_is_reset_but_not_zeroed() {
    let ma = tables();
    let mut buf = MovesStruct::init();
    assert_eq!(buf.move_number, 0);
    assert!(buf.moves.iter().all(|m| *m == 0));
    get_starting_chessboard().get_moves(&ma, &mut buf);
    assert_eq!(buf.move_number, 20);
    let lone_king = board_with(&[(27, TypePiece::WhiteKing)], true, [false; 2], [false; 2], 0);
    let before = buf.moves;
    lone_king.get_moves(&ma, &mut buf);
    assert_eq!(buf.move_number, 8);
    assert_eq!(buf.moves[8..], before[8..]);
    buf.reset();
    assert_eq!(buf.move_number, 0);
    buf.push(77);
    assert_eq!(buf.move_number, 1);
    assert_eq!(buf.moves[0], 77);
}

#[test]
fn queen_moves_are_rook_and_bishop_moves() {
    let ma = tables();
    let queen = board_with(&[(27, TypePiece::BlackQueen)], false, [false; 2], [false; 2], 0);
    let rook = board_with(&[(27, TypePiece::BlackRook)], false, [false; 2], [false; 2], 0);
    let bishop = board_with(&[(27, TypePiece::BlackBishop)], false, [false; 2], [false; 2], 0);
    let q = generated(&queen, &ma);
    let mut rb = generated(&rook, &ma);
    rb.extend(generated(&bishop, &ma));
    rb.sort();
    assert_eq!(q.len(), 27);
    assert_eq!(q, rb);
}

#[test]
fn knight_and_king_do_not_take_their_own() {
    let ma = tables();
    let board = board_with(
        &[
            (0, TypePiece::WhiteKnight),
            (10, TypePiece::WhitePawn),
            (17, TypePiece::BlackPawn),
            (63, TypePiece::WhiteKing),
            (62, TypePiece::WhiteRook),
            (54, TypePiece::BlackQueen),
        ],
        true,
        [false; 2],
        [false; 2],
        0,
    );
    let moves = generated(&board, &ma);
    let knight: Vec<usize> = moves.iter().filter(|m| from(**m) == 0).map(|m| to(*m)).collect();
    assert_eq!(knight, vec![17]);
    let mut king: Vec<usize> = moves.iter().filter(|m| from(**m) == 63).map(|m| to(*m)).collect();
    king.sort();
    assert_eq!(king, vec![54, 55]);
}

#[test]
fn pawn_pushes_and_blocks() {
    let ma = tables();
    let board = board_with(
        &[
            (52, TypePiece::WhitePawn),
            (44, TypePiece::BlackKnight),
            (51, TypePiece::WhitePawn),
            (35, TypePiece::BlackKnight),
            (50, TypePiece::WhitePawn),
            (41, TypePiece::BlackPawn),
            (30, TypePiece::WhitePawn),
        ],
        true,
        [false; 2],
        [false; 2],
        0,
    );
    let moves = generated(&board, &ma);
    let targets = |sq: usize| -> Vec<usize> {
        let mut v: Vec<usize> = moves.iter().filter(|m| from(**m) == sq).map(|m| to(*m)).collect();
        v.sort();
        v
    };
    assert_eq!(targets(52), Vec::<usize>::new());
    assert_eq!(targets(51), vec![43, 44]);
    assert_eq!(targets(50), vec![34, 41, 42]);
    assert_eq!(targets(30), vec![22]);
}

#[test]
fn from_parts_rejects_what_does_not_fit() {
    let mut squares = [TypePiece::Empty; 64];
    squares[60] = TypePiece::WhiteKing;
    squares[4] = TypePiece::BlackKing;
    assert!(ChessBoard::from_parts(squares, true, [false; 2], [false; 2], 0).is_some());
    assert!(ChessBoard::from_parts(squares, true, [false, true], [false; 2], 0).is_none());
    assert!(ChessBoard::from_parts(squares, true, [false; 2], [true, false], 0).is_none());
    assert!(ChessBoard::from_parts(squares, true, [false; 2], [false; 2], 3).is_none());
    assert!(ChessBoard::from_parts(squares, true, [false; 2], [false; 2], 1 << 20).is_none());
    squares[28] = TypePiece::BlackPawn;
    assert!(ChessBoard::from_parts(squares, true, [false; 2], [false; 2], 1 << 20).is_some());
    assert!(ChessBoard::from_parts(squares, false, [false; 2], [false; 2], 1 << 20).is_none());
    squares[20] = TypePiece::WhiteKnight;
    assert!(ChessBoard::from_parts(squares, true, [false; 2], [false; 2], 1 << 20).is_none());
}

#[test]
fn put_keeps_the_bitboards_in_step() {
    let mut board = get_starting_chessboard();
    board.put(36, TypePiece::BlackQueen);
    board.put(52, TypePiece::Empty);
    board.put(0, TypePiece::WhiteKnight);
    assert_eq!(board.pieces_by_index[36], TypePiece::BlackQueen);
    assert_eq!(board.pieces[TypePiece::BlackQueen.index()], (1 << 3) | (1 << 36));
    assert_eq!(board.pieces[TypePiece::WhitePawn.index()], 0x00ef_0000_0000_0000);
    assert_eq!(board.pieces[TypePiece::BlackRook.index()], 1 << 7);
    assert_eq!(board.board, board.players[0] | board.players[1]);
    assert_eq!(board.players[1] & 1, 1);
    assert_eq!(board.players[0] & 1, 0);
}

#[test]
fn piece_slots_round_trip() {
    for i in 0..13usize {
        assert_eq!(TypePiece::from_index(i).index(), i);
    }
    assert_eq!(TypePiece::from_index(40), TypePiece::Empty);
    assert_eq!(TypePiece::WhitePawn.index(), 5);
    assert_eq!(TypePiece::BlackKing.index(), 6);
}

#[test]
fn more_moves_than_the_buffer_holds_are_reported() {
    let ma = tables();
    let mut rim: Vec<(usize, TypePiece)> = Vec::new();
    for sq in 0..64usize {
        if sq / 8 == 0 || sq / 8 == 7 || sq % 8 == 0 || sq % 8 == 7 {
            rim.push((sq, TypePiece::WhiteQueen));
        }
    }
    let board = board_with(&rim, true, [false; 2], [false; 2], 0);
    let mut buf = MovesStruct::init();
    assert!(!board.get_moves_checked(&ma, &mut buf));
    assert_eq!(buf.move_number, 255);
    let mut listed = buf.moves.to_vec();
    listed.sort();
    listed.dedup();
    assert_eq!(listed.len(), 255);
    assert!(listed.iter().all(|m| kind(*m) == 0 && rim.iter().any(|(sq, _)| *sq == from(*m))));
}

#[test]
fn checked_generation_agrees_where_the_moves_fit() {
    let ma = tables();
    let board = get_starting_chessboard();
    let mut checked = MovesStruct::init();
    let mut plain = MovesStruct::init();
    assert!(board.get_moves_checked(&ma, &mut checked));
    board.get_moves(&ma, &mut plain);
    assert_eq!(checked.move_number, 20);
    assert_eq!(checked.moves, plain.moves);
}

#[test]
fn single_piece_functions_report_room() {
    let ma = tables();
    let board = board_with(
        &[(27, TypePiece::WhiteQueen), (60, TypePiece::WhiteKing), (9, TypePiece::WhitePawn)],
        true,
        [false; 2],
        [false; 2],
        0,
    );
    let mut buf = MovesStruct::init();
    assert!(board.get_queen_moves(27, &ma, board.players[1], &mut buf));
    assert_eq!(buf.move_number, 25);
    assert!(board.get_king_moves(60, &ma, board.players[1], &mut buf));
    assert_eq!(buf.move_number, 30);
    assert!(board.get_pawn_moves(9, &ma, board.players[1], &mut buf));
    assert_eq!(buf.move_number, 34);
    let knight = board_with(&[(0, TypePiece::BlackKnight)], false, [false; 2], [false; 2], 0);
    buf.reset();
    assert!(knight.get_knight_moves(0, &ma, knight.players[0], &mut buf));
    assert_eq!(buf.move_number, 2);
    let bishop = board_with(&[(0, TypePiece::BlackBishop)], false, [false; 2], [false; 2], 0);
    buf.reset();
    assert!(bishop.get_bishop_moves(0, &ma, bishop.players[0], &mut buf));
    assert_eq!(buf.move_number, 7);
    let rook = board_with(&[(63, TypePiece::BlackRook)], false, [false; 2], [false; 2], 0);
    buf.reset();
    assert!(rook.get_rook_moves(63, &ma, rook.players[0], &mut buf));
    assert_eq!(buf.move_number, 14);
}

#[test]
fn castling_is_offered_through_an_attacked_square() {
    let ma = tables();
    let board = board_with(
        &[
            (60, TypePiece::WhiteKing),
            (63, TypePiece::WhiteRook),
            (4, TypePiece::BlackKing),
            (5, TypePiece::BlackRook),
        ],
        true,
        [false, true],
        [false, false],
        0,
    );
    assert!(generated(&board, &ma).contains(&encode_move(1, 0, 60, 62)));
}

#[test]
fn a_king_can_be_taken() {
    let ma = tables();
    let mut board = board_with(
        &[(60, TypePiece::WhiteKing), (4, TypePiece::BlackKing), (12, TypePiece::WhiteQueen)],
        true,
        [false; 2],
        [false; 2],
        0,
    );
    let take = encode_move(0, 0, 12, 4);
    assert!(generated(&board, &ma).contains(&take));
    board.make_move(take);
    assert_eq!(board.pieces[TypePiece::BlackKing.index()], 0);
    assert_eq!(board.pieces_by_index[4], TypePiece::WhiteQueen);
    assert_eq!(board.board, board.players[0] | board.players[1]);
}
