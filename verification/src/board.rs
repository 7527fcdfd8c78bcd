use vstd::prelude::*;
use crate::bits::{
    bit, cleared, has_bit, lemma_bit_ext, lemma_bit_ops, lemma_bit_sets, lemma_nonzero_has_square,
    single, square_bit, with_square,
};
use crate::geometry::rank_of;

verus! {

/// What stands on a square: one of the six kinds of piece of either colour, or nothing.
#[derive(Clone, Copy, Debug, PartialEq, Eq, Structural)]
pub enum TypePiece {
    WhiteKing,
    WhiteQueen,
    WhiteRook,
    WhiteBishop,
    WhiteKnight,
    WhitePawn,
    BlackKing,
    BlackQueen,
    BlackRook,
    BlackBishop,
    BlackKnight,
    BlackPawn,
    Empty,
}

impl TypePiece {
    /// The slot of this kind in `ChessBoard::pieces`: White's kinds are 0 to 5, Black's 6
    /// to 11 in the same order, and 12 stands for the empty square.
    pub open spec fn slot(self) -> int {
        match self {
            TypePiece::WhiteKing => 0,
            TypePiece::WhiteQueen => 1,
            TypePiece::WhiteRook => 2,
            TypePiece::WhiteBishop => 3,
            TypePiece::WhiteKnight => 4,
            TypePiece::WhitePawn => 5,
            TypePiece::BlackKing => 6,
            TypePiece::BlackQueen => 7,
            TypePiece::BlackRook => 8,
            TypePiece::BlackBishop => 9,
            TypePiece::BlackKnight => 10,
            TypePiece::BlackPawn => 11,
            TypePiece::Empty => 12,
        }
    }

    pub open spec fn is_white(self) -> bool {
        self.slot() < 6
    }

    pub open spec fn is_black(self) -> bool {
        6 <= self.slot() < 12
    }

    /// The piece belongs to the side given by `white`.
    pub open spec fn is_of(self, white: bool) -> bool {
        if white {
            self.is_white()
        } else {
            self.is_black()
        }
    }

    /// The kind of the piece without its colour: 0 king, 1 queen, 2 rook, 3 bishop,
    /// 4 knight, 5 pawn; 6 for the empty square.
    pub open spec fn role(self) -> int {
        if self.slot() < 6 {
            self.slot()
        } else {
            self.slot() - 6
        }
    }

    /// The kind that stands in slot `i`.
    pub open spec fn of_slot(i: int) -> TypePiece {
        if i == 0 {
            TypePiece::WhiteKing
        } else if i == 1 {
            TypePiece::WhiteQueen
        } else if i == 2 {
            TypePiece::WhiteRook
        } else if i == 3 {
            TypePiece::WhiteBishop
        } else if i == 4 {
            TypePiece::WhiteKnight
        } else if i == 5 {
            TypePiece::WhitePawn
        } else if i == 6 {
            TypePiece::BlackKing
        } else if i == 7 {
            TypePiece::BlackQueen
        } else if i == 8 {
            TypePiece::BlackRook
        } else if i == 9 {
            TypePiece::BlackBishop
        } else if i == 10 {
            TypePiece::BlackKnight
        } else if i == 11 {
            TypePiece::BlackPawn
        } else {
            TypePiece::Empty
        }
    }

    /// The slot of this kind, as `slot` defines it.
    pub fn index(self) -> (i: usize)
        ensures
            i == self.slot(),
            i <= 12,
    {
        match self {
            TypePiece::WhiteKing => 0,
            TypePiece::WhiteQueen => 1,
            TypePiece::WhiteRook => 2,
            TypePiece::WhiteBishop => 3,
            TypePiece::WhiteKnight => 4,
            TypePiece::WhitePawn => 5,
            TypePiece::BlackKing => 6,
            TypePiece::BlackQueen => 7,
            TypePiece::BlackRook => 8,
            TypePiece::BlackBishop => 9,
            TypePiece::BlackKnight => 10,
            TypePiece::BlackPawn => 11,
            TypePiece::Empty => 12,
        }
    }

    /// The kind that stands in slot `i`; every `i` above 11 gives `Empty`.
    pub fn from_index(i: usize) -> (p: TypePiece)
        ensures
            p == TypePiece::of_slot(i as int),
            i <= 12 ==> p.slot() == i,
    {
        match i {
            0 => TypePiece::WhiteKing,
            1 => TypePiece::WhiteQueen,
            2 => TypePiece::WhiteRook,
            3 => TypePiece::WhiteBishop,
            4 => TypePiece::WhiteKnight,
            5 => TypePiece::WhitePawn,
            6 => TypePiece::BlackKing,
            7 => TypePiece::BlackQueen,
            8 => TypePiece::BlackRook,
            9 => TypePiece::BlackBishop,
            10 => TypePiece::BlackKnight,
            11 => TypePiece::BlackPawn,
            _ => TypePiece::Empty,
        }
    }
}

/// A chess position as a value: what stands on each square, whose turn it is, which
/// castlings are still allowed and where a pawn may be captured in passing.
pub struct Position {
    /// The 64 squares, square 0 (a8) first.
    pub squares: Seq<TypePiece>,
    pub white_to_move: bool,
    /// Castling rights on the king's side, Black's first.
    pub king_side_castle: Seq<bool>,
    /// Castling rights on the queen's side, Black's first.
    pub queen_side_castle: Seq<bool>,
    /// The square that a pawn skipped with a double push on the move before, as a
    /// bitboard; 0 if there is none.
    pub en_passant: u64,
}

impl Position {
    /// The shape of a position: 64 squares, two rights of each kind, at most one
    /// en-passant square, and what the rights and the en-passant square say of the board
    /// holds. A right to castle needs king and rook on their home squares. An
    /// en-passant square is empty, lies behind a pawn of the side that just moved, on the
    /// rank that such a pawn skips.
    pub open spec fn valid(self) -> bool {
        &&& self.squares.len() == 64
        &&& self.king_side_castle.len() == 2
        &&& self.queen_side_castle.len() == 2
        &&& self.king_side_castle[1] ==> self.squares[60] == TypePiece::WhiteKing
            && self.squares[63] == TypePiece::WhiteRook
        &&& self.queen_side_castle[1] ==> self.squares[60] == TypePiece::WhiteKing
            && self.squares[56] == TypePiece::WhiteRook
        &&& self.king_side_castle[0] ==> self.squares[4] == TypePiece::BlackKing
            && self.squares[7] == TypePiece::BlackRook
        &&& self.queen_side_castle[0] ==> self.squares[4] == TypePiece::BlackKing
            && self.squares[0] == TypePiece::BlackRook
        &&& en_passant_valid(self.squares, self.white_to_move, self.en_passant)
    }

    /// The position from which a game starts.
    pub open spec fn starting() -> Position {
        Position {
            squares: Seq::new(64, |u: int| start_piece(u)),
            white_to_move: true,
            king_side_castle: seq![true, true],
            queen_side_castle: seq![true, true],
            en_passant: 0,
        }
    }
}

/// The en-passant bitboard holds at most one square; that square is empty and lies
/// behind a pawn of the side that just moved, on the rank that such a pawn skips.
pub open spec fn en_passant_valid(squares: Seq<TypePiece>, white_to_move: bool, en_passant: u64) -> bool {
    &&& forall|t: int, u: int| bit(en_passant, t) && bit(en_passant, u) ==> t == u
    &&& forall|t: int| #[trigger]
        bit(en_passant, t) ==> squares[t] == TypePiece::Empty && if white_to_move {
            rank_of(t) == 2 && squares[t + 8] == TypePiece::BlackPawn
        } else {
            rank_of(t) == 5 && squares[t - 8] == TypePiece::WhitePawn
        }
}

/// What stands on square `u` when a game starts.
pub open spec fn start_piece(u: int) -> TypePiece {
    if rank_of(u) == 1 {
        TypePiece::BlackPawn
    } else if rank_of(u) == 6 {
        TypePiece::WhitePawn
    } else if rank_of(u) == 0 || rank_of(u) == 7 {
        let f = u % 8;
        let role: int = if f == 0 || f == 7 {
            2
        } else if f == 1 || f == 6 {
            4
        } else if f == 2 || f == 5 {
            3
        } else if f == 3 {
            1
        } else {
            0
        };
        TypePiece::of_slot(
            if rank_of(u) == 7 {
                role
            } else {
                role + 6
            },
        )
    } else {
        TypePiece::Empty
    }
}

/// The position with its bitboards: the same placement held once square by square and
/// once as sets of squares, by kind, by colour and in all.
#[derive(Clone, Copy, Debug, PartialEq, Eq)]
pub struct ChessBoard {
    /// All occupied squares.
    pub board: u64,
    /// The squares of each colour's pieces: Black's at 0, White's at 1.
    pub players: [u64; 2],
    /// The squares of each kind of piece, by `TypePiece::slot`; slot 12 stays 0.
    pub pieces: [u64; 13],
    pub pieces_by_index: [TypePiece; 64],
    pub is_white_to_play: bool,
    pub king_side_castle: [bool; 2],
    pub queen_side_castle: [bool; 2],
    pub en_passant: u64,
}

impl View for ChessBoard {
    type V = Position;

    open spec fn view(&self) -> Position {
        Position {
            squares: self.pieces_by_index@,
            white_to_move: self.is_white_to_play,
            king_side_castle: self.king_side_castle@,
            queen_side_castle: self.queen_side_castle@,
            en_passant: self.en_passant,
        }
    }
}

impl ChessBoard {
    /// The bitboards say what the squares say, and the position is valid.
    pub open spec fn wf(&self) -> bool {
        self@.valid() && self.boards_agree()
    }

    /// The bitboards say what the squares say: a square is in the bitboard of a kind, of
    /// a colour, or of all pieces exactly when a piece of that kind, of that colour, or
    /// any piece stands on it.
    pub open spec fn boards_agree(&self) -> bool {
        &&& forall|k: int, u: int|
            0 <= k < 12 && 0 <= u < 64 ==> #[trigger] bit(self.pieces[k], u) == (
            self.pieces_by_index[u].slot() == k)
        &&& self.pieces[12] == 0
        &&& forall|u: int|
            0 <= u < 64 ==> #[trigger] bit(self.players[1], u) == self.pieces_by_index[u].is_white()
        &&& forall|u: int|
            0 <= u < 64 ==> #[trigger] bit(self.players[0], u) == self.pieces_by_index[u].is_black()
        &&& forall|u: int|
            0 <= u < 64 ==> #[trigger] bit(self.board, u) == (self.pieces_by_index[u]
                != TypePiece::Empty)
    }
}

/// The position that the parts of a board make up.
pub open spec fn position_of(
    pieces_by_index: [TypePiece; 64],
    is_white_to_play: bool,
    king_side_castle: [bool; 2],
    queen_side_castle: [bool; 2],
    en_passant: u64,
) -> Position {
    Position {
        squares: pieces_by_index@,
        white_to_move: is_white_to_play,
        king_side_castle: king_side_castle@,
        queen_side_castle: queen_side_castle@,
        en_passant,
    }
}

/// Whether the en-passant bitboard fits the squares: empty, or the one square behind a
/// pawn that may just have made a double push.
fn en_passant_fits(pieces_by_index: [TypePiece; 64], is_white_to_play: bool, en_passant: u64) -> (ok:
    bool)
    ensures
        ok == en_passant_valid(pieces_by_index@, is_white_to_play, en_passant),
{
    proof {
        lemma_nonzero_has_square(en_passant);
    }
    if en_passant == 0 {
        return true;
    }
    let mut t: usize = 0;
    while t < 64
        invariant
            t <= 64,
            forall|u: int| 0 <= u < t ==> en_passant != #[trigger] single(u),
        decreases 64 - t,
    {
        let b = square_bit(t);
        if en_passant == b {
            let behind_ok = if is_white_to_play {
                t / 8 == 2 && pieces_by_index[t + 8] == TypePiece::BlackPawn
            } else {
                t / 8 == 5 && pieces_by_index[t - 8] == TypePiece::WhitePawn
            };
            assert(bit(en_passant, t as int));
            return pieces_by_index[t] == TypePiece::Empty && behind_ok;
        }
        t += 1;
    }
    proof {
        if forall|t: int, u: int| bit(en_passant, t) && bit(en_passant, u) ==> t == u {
            let w = choose|w: int| bit(en_passant, w);
            let one = single(w);
            assert forall|u: int| 0 <= u < 64 implies bit(en_passant, u) == bit(one, u) by {
                lemma_bit_ops();
                assert(has_bit(1u64 << (w as u64), u as u64) == (u as u64 == w as u64));
            }
            lemma_bit_ext(en_passant, one);
        }
    }
    false
}

impl ChessBoard {
    /// Builds the board for a placement given square by square, with its bitboards, or
    /// `None` where the castling rights or the en-passant square do not fit the
    /// placement.
    pub fn from_parts(
        pieces_by_index: [TypePiece; 64],
        is_white_to_play: bool,
        king_side_castle: [bool; 2],
        queen_side_castle: [bool; 2],
        en_passant: u64,
    ) -> (r: Option<ChessBoard>)
        ensures
            r is Some <==> position_of(
                pieces_by_index,
                is_white_to_play,
                king_side_castle,
                queen_side_castle,
                en_passant,
            ).valid(),
            r matches Some(b) ==> b.wf() && b@ == position_of(
                pieces_by_index,
                is_white_to_play,
                king_side_castle,
                queen_side_castle,
                en_passant,
            ),
    {
        let white_home = pieces_by_index[60] == TypePiece::WhiteKing;
        let black_home = pieces_by_index[4] == TypePiece::BlackKing;
        if king_side_castle[1] && !(white_home && pieces_by_index[63] == TypePiece::WhiteRook) {
            return None;
        }
        if queen_side_castle[1] && !(white_home && pieces_by_index[56] == TypePiece::WhiteRook) {
            return None;
        }
        if king_side_castle[0] && !(black_home && pieces_by_index[7] == TypePiece::BlackRook) {
            return None;
        }
        if queen_side_castle[0] && !(black_home && pieces_by_index[0] == TypePiece::BlackRook) {
            return None;
        }
        if !en_passant_fits(pieces_by_index, is_white_to_play, en_passant) {
            return None;
        }
        let mut board: u64 = 0;
        let mut players: [u64; 2] = [0; 2];
        let mut pieces: [u64; 13] = [0; 13];
        let mut u: usize = 0;
        proof {
            lemma_bit_sets(0, 0);
        }
        while u < 64
            invariant
                u <= 64,
                forall|k: int, v: int|
                    0 <= k < 12 && 0 <= v < 64 ==> #[trigger] bit(pieces[k], v) == (v < u
                        && pieces_by_index[v].slot() == k),
                pieces[12] == 0,
                forall|v: int|
                    0 <= v < 64 ==> #[trigger] bit(players[1], v) == (v < u
                        && pieces_by_index[v].is_white()),
                forall|v: int|
                    0 <= v < 64 ==> #[trigger] bit(players[0], v) == (v < u
                        && pieces_by_index[v].is_black()),
                forall|v: int|
                    0 <= v < 64 ==> #[trigger] bit(board, v) == (v < u && pieces_by_index[v]
                        != TypePiece::Empty),
            decreases 64 - u,
        {
            let k = pieces_by_index[u].index();
            if k < 12 {
                pieces[k] = with_square(pieces[k], u);
                board = with_square(board, u);
                if k < 6 {
                    players[1] = with_square(players[1], u);
                } else {
                    players[0] = with_square(players[0], u);
                }
            }
            u += 1;
        }
        Some(
            ChessBoard {
                board,
                players,
                pieces,
                pieces_by_index,
                is_white_to_play,
                king_side_castle,
                queen_side_castle,
                en_passant,
            },
        )
    }
}

impl ChessBoard {
    /// What stands on the square `square`.
    pub fn piece_kind_at(&self, square: usize) -> (p: TypePiece)
        requires
            square < 64,
        ensures
            p == self@.squares[square as int],
    {
        self.pieces_by_index[square]
    }

    /// Puts `piece` on the square `sq` in place of what stands there, in the squares and
    /// in every bitboard.
    pub fn put(&mut self, sq: usize, piece: TypePiece)
        requires
            old(self).boards_agree(),
            sq < 64,
        ensures
            final(self).boards_agree(),
            final(self).pieces_by_index@ == old(self).pieces_by_index@.update(sq as int, piece),
            final(self).is_white_to_play == old(self).is_white_to_play,
            final(self).king_side_castle == old(self).king_side_castle,
            final(self).queen_side_castle == old(self).queen_side_castle,
            final(self).en_passant == old(self).en_passant,
    {
        let was = self.pieces_by_index[sq].index();
        if was < 12 {
            self.pieces[was] = cleared(self.pieces[was], sq);
            self.board = cleared(self.board, sq);
            if was < 6 {
                self.players[1] = cleared(self.players[1], sq);
            } else {
                self.players[0] = cleared(self.players[0], sq);
            }
        }
        let now = piece.index();
        if now < 12 {
            self.pieces[now] = with_square(self.pieces[now], sq);
            self.board = with_square(self.board, sq);
            if now < 6 {
                self.players[1] = with_square(self.players[1], sq);
            } else {
                self.players[0] = with_square(self.players[0], sq);
            }
        }
        self.pieces_by_index[sq] = piece;
        assert(self.pieces_by_index@ =~= old(self).pieces_by_index@.update(sq as int, piece));
    }
}

/// The standard starting position: both sides complete, every castling allowed, no
/// en-passant square, White to move.
pub fn get_starting_chessboard() -> (b: ChessBoard)
    ensures
        b.wf(),
        b@ == Position::starting(),
{
    let back: [usize; 8] = [2, 4, 3, 1, 0, 3, 4, 2];
    let mut pieces_by_index: [TypePiece; 64] = [TypePiece::Empty;64];
    let mut u: usize = 0;
    while u < 64
        invariant
            u <= 64,
            back[0] == 2 && back[1] == 4 && back[2] == 3 && back[3] == 1 && back[4] == 0 && back[5]
                == 3 && back[6] == 4 && back[7] == 2,
            forall|v: int| 0 <= v < u ==> #[trigger] pieces_by_index[v] == start_piece(v),
        decreases 64 - u,
    {
        let y = u / 8;
        let x = u % 8;
        pieces_by_index[u] = if y == 1 {
            TypePiece::BlackPawn
        } else if y == 6 {
            TypePiece::WhitePawn
        } else if y == 0 {
            TypePiece::from_index(back[x] + 6)
        } else if y == 7 {
            TypePiece::from_index(back[x])
        } else {
            TypePiece::Empty
        };
        u += 1;
    }
    proof {
        lemma_bit_sets(0, 0);
        assert(pieces_by_index[60] == start_piece(60));
        assert(pieces_by_index[63] == start_piece(63));
        assert(pieces_by_index[56] == start_piece(56));
        assert(pieces_by_index[4] == start_piece(4));
        assert(pieces_by_index[7] == start_piece(7));
        assert(pieces_by_index[0] == start_piece(0));
        assert(pieces_by_index@ =~= Position::starting().squares);
    }
    let king_side_castle = [true, true];
    let queen_side_castle = [true, true];
    assert(king_side_castle@ =~= seq![true, true]);
    assert(queen_side_castle@ =~= seq![true, true]);
    ChessBoard::from_parts(pieces_by_index, true, king_side_castle, queen_side_castle, 0).unwrap()
}

} // verus!
