use vstd::prelude::*;
use crate::bits::{bit, board_of, has_bit, lemma_bit_ops, lemma_bit_sets, lemma_board_of, single};
use crate::board::{Position, TypePiece};
use crate::geometry::{
    bishop_attack, king_step, knight_step, on_board, pawn_capture, pawn_push, rank_of, rook_attack,
};

verus! {

/// The kind of a move code, its two top bits: 0 normal, 1 castling, 2 promotion.
pub open spec fn move_kind(m: u16) -> int {
    m as int / 16384
}

/// The payload of a move code, bits 13 and 12: which castling, or the piece promoted to
/// (0 queen, 1 rook, 2 bishop, 3 knight).
pub open spec fn move_payload(m: u16) -> int {
    (m as int / 4096) % 4
}

/// The square a move starts from, bits 11 to 6.
pub open spec fn move_from(m: u16) -> int {
    (m as int / 64) % 64
}

/// The square a move ends on, bits 5 to 0.
pub open spec fn move_to(m: u16) -> int {
    m as int % 64
}

/// The code with the given four fields.
pub open spec fn move_code(kind: int, payload: int, from: int, to: int) -> u16 {
    (kind * 16384 + payload * 4096 + from * 64 + to) as u16
}

/// A square on either back rank, where a pawn that arrives is promoted.
pub open spec fn last_rank(t: int) -> bool {
    t < 8 || t > 55
}

/// Where the king starts a castling with the given payload.
pub open spec fn castle_king_from(payload: int) -> int {
    if payload < 2 {
        60
    } else {
        4
    }
}

/// Where the king ends a castling with the given payload.
pub open spec fn castle_king_to(payload: int) -> int {
    if payload == 0 {
        62
    } else if payload == 1 {
        58
    } else if payload == 2 {
        6
    } else {
        2
    }
}

/// Where the rook starts a castling with the given payload.
pub open spec fn castle_rook_from(payload: int) -> int {
    if payload == 0 {
        63
    } else if payload == 1 {
        56
    } else if payload == 2 {
        7
    } else {
        0
    }
}

/// Where the rook ends a castling with the given payload.
pub open spec fn castle_rook_to(payload: int) -> int {
    if payload == 0 {
        61
    } else if payload == 1 {
        59
    } else if payload == 2 {
        5
    } else {
        3
    }
}

/// The index of a colour in the arrays of a board: 1 for White, 0 for Black.
pub open spec fn colour_index(white: bool) -> int {
    if white {
        1
    } else {
        0
    }
}

impl Position {
    /// The set of occupied squares.
    pub open spec fn occupancy(self) -> u64 {
        board_of(|u: int| self.squares[u] != TypePiece::Empty)
    }

    /// The piece of the side to move on `from` can go to `to` by the way its kind moves:
    /// `to` holds no piece of its own side; king and knight step, rook, bishop and queen
    /// slide up to the first occupied square, a pawn pushes onto empty squares and
    /// captures diagonally ahead, a piece of the other side or in passing.
    pub open spec fn reaches(self, from: int, to: int) -> bool {
        let white = self.white_to_move;
        let role = self.squares[from].role();
        let occ = self.occupancy();
        &&& on_board(from) && on_board(to)
        &&& self.squares[from].is_of(white)
        &&& !self.squares[to].is_of(white)
        &&& if role == 0 {
            king_step(from, to)
        } else if role == 1 {
            rook_attack(from, to, occ) || bishop_attack(from, to, occ)
        } else if role == 2 {
            rook_attack(from, to, occ)
        } else if role == 3 {
            bishop_attack(from, to, occ)
        } else if role == 4 {
            knight_step(from, to)
        } else {
            ||| pawn_push(white, from, to, occ)
            ||| pawn_capture(white, from, to) && (self.squares[to].is_of(!white) || bit(
                self.en_passant,
                to,
            ))
        }
    }

    /// The castling with the given payload (0 and 1 White's, 2 and 3 Black's; even on the
    /// king's side, odd on the queen's) is on offer: it is that side's move, the right
    /// is still there, and the squares between king and rook are empty.
    pub open spec fn castle_allowed(self, payload: int) -> bool {
        let white = payload < 2;
        let c = colour_index(white);
        &&& 0 <= payload < 4
        &&& self.white_to_move == white
        &&& if payload % 2 == 0 {
            &&& self.king_side_castle[c]
            &&& self.squares[castle_king_from(payload) + 1] == TypePiece::Empty
            &&& self.squares[castle_king_from(payload) + 2] == TypePiece::Empty
        } else {
            &&& self.queen_side_castle[c]
            &&& self.squares[castle_king_from(payload) - 1] == TypePiece::Empty
            &&& self.squares[castle_king_from(payload) - 2] == TypePiece::Empty
            &&& self.squares[castle_king_from(payload) - 3] == TypePiece::Empty
        }
    }

    /// `m` is the code of a pseudo-legal move of the side to move: a move that obeys the
    /// way the pieces move, whether or not it leaves the own king attacked. A pawn that
    /// arrives on a back rank moves by the four promotion codes and by no normal code;
    /// a castling code carries the king's two squares.
    pub open spec fn is_pseudo_legal(self, m: u16) -> bool {
        let from = move_from(m);
        let to = move_to(m);
        let promotes = self.squares[from].role() == 5 && last_rank(to);
        if move_kind(m) == 0 {
            move_payload(m) == 0 && self.reaches(from, to) && !promotes
        } else if move_kind(m) == 1 {
            self.castle_allowed(move_payload(m)) && from == castle_king_from(move_payload(m))
                && to == castle_king_to(move_payload(m))
        } else if move_kind(m) == 2 {
            self.reaches(from, to) && promotes
        } else {
            false
        }
    }

    /// The castling rights of one kind after a move between `from` and `to`: a right is
    /// lost once a move starts or ends on the home square of its king or of its rook.
    pub open spec fn rights_after(rights: Seq<bool>, queen_side: bool, from: int, to: int) -> Seq<bool> {
        let white_rook: int = if queen_side {
            56
        } else {
            63
        };
        let black_rook: int = if queen_side {
            0
        } else {
            7
        };
        seq![
            rights[0] && from != 4 && to != 4 && from != black_rook && to != black_rook,
            rights[1] && from != 60 && to != 60 && from != white_rook && to != white_rook,
        ]
    }

    /// The position after a normal move from `from` to `to`: the piece stands on `to`
    /// in place of what stood there; a pawn that captures in passing also removes the
    /// pawn behind `to`; a pawn's double push leaves the skipped square as the next
    /// en-passant square.
    pub open spec fn after_normal(self, from: int, to: int) -> Position {
        let piece = self.squares[from];
        let pawn = piece.role() == 5;
        let victim = if self.white_to_move {
            to + 8
        } else {
            to - 8
        };
        let moved = self.squares.update(to, piece).update(from, TypePiece::Empty);
        Position {
            squares: if pawn && bit(self.en_passant, to) {
                moved.update(victim, TypePiece::Empty)
            } else {
                moved
            },
            white_to_move: !self.white_to_move,
            king_side_castle: Self::rights_after(self.king_side_castle, false, from, to),
            queen_side_castle: Self::rights_after(self.queen_side_castle, true, from, to),
            en_passant: if pawn && (from - to == 16 || to - from == 16) {
                single((from + to) / 2)
            } else {
                0
            },
        }
    }

    /// The position after the pawn on `from` has moved to `to` and become the piece that
    /// `payload` names (0 queen, 1 rook, 2 bishop, 3 knight) in its own colour.
    pub open spec fn after_promotion(self, from: int, to: int, payload: int) -> Position {
        let promoted = TypePiece::of_slot(self.squares[from].slot() - 4 + payload);
        Position {
            squares: self.squares.update(to, promoted).update(from, TypePiece::Empty),
            white_to_move: !self.white_to_move,
            king_side_castle: Self::rights_after(self.king_side_castle, false, from, to),
            queen_side_castle: Self::rights_after(self.queen_side_castle, true, from, to),
            en_passant: 0,
        }
    }

    /// The position after the castling that `payload` names: king and rook have changed
    /// places as the rules say, and that side has lost both rights.
    pub open spec fn after_castling(self, payload: int) -> Position {
        let white = payload < 2;
        let c = colour_index(white);
        let king = if white {
            TypePiece::WhiteKing
        } else {
            TypePiece::BlackKing
        };
        let rook = if white {
            TypePiece::WhiteRook
        } else {
            TypePiece::BlackRook
        };
        Position {
            squares: self.squares.update(castle_king_from(payload), TypePiece::Empty).update(
                castle_rook_from(payload),
                TypePiece::Empty,
            ).update(castle_king_to(payload), king).update(castle_rook_to(payload), rook),
            white_to_move: !self.white_to_move,
            king_side_castle: self.king_side_castle.update(c, false),
            queen_side_castle: self.queen_side_castle.update(c, false),
            en_passant: 0,
        }
    }

    /// The position after the move with code `m`.
    pub open spec fn after(self, m: u16) -> Position {
        if move_kind(m) == 1 {
            self.after_castling(move_payload(m))
        } else if move_kind(m) == 2 {
            self.after_promotion(move_from(m), move_to(m), move_payload(m))
        } else {
            self.after_normal(move_from(m), move_to(m))
        }
    }

    /// The position after the moves of `line`, made one after the other.
    pub open spec fn after_all(self, line: Seq<u16>) -> Position
        decreases line.len(),
    {
        if line.len() == 0 {
            self
        } else {
            self.after(line[0]).after_all(line.subrange(1, line.len() as int))
        }
    }

    /// Each move of `line` is pseudo-legal in the position in which it is made.
    pub open spec fn legal_line(self, line: Seq<u16>) -> bool
        decreases line.len(),
    {
        line.len() == 0 || (self.is_pseudo_legal(line[0]) && self.after(line[0]).legal_line(
            line.subrange(1, line.len() as int),
        ))
    }

    /// No move of `line` ends on a square on which a king stands when it is made.
    pub open spec fn spares_kings(self, line: Seq<u16>) -> bool
        decreases line.len(),
    {
        line.len() == 0 || (self.squares[move_to(line[0])].role() != 0 && self.after(
            line[0],
        ).spares_kings(line.subrange(1, line.len() as int)))
    }

    /// The pseudo-legal moves as a predicate on move codes.
    pub open spec fn legal(self) -> spec_fn(u16) -> bool {
        |m: u16| self.is_pseudo_legal(m)
    }

    /// The position has at most `n` pseudo-legal moves: no list of them without
    /// repetition is longer.
    pub open spec fn has_at_most(self, n: nat) -> bool {
        at_most(self.legal(), n)
    }
}

/// No list without repetition of codes that `allowed` admits is longer than `n`.
pub open spec fn at_most(allowed: spec_fn(u16) -> bool, n: nat) -> bool {
    forall|s: Seq<u16>| #[trigger]
        s.no_duplicates() && (forall|i: int| 0 <= i < s.len() ==> allowed(s[i])) ==> s.len() <= n
}

/// The fields of a code built from fields are those fields.
pub proof fn lemma_move_code_fields(kind: int, payload: int, from: int, to: int)
    requires
        0 <= kind < 4,
        0 <= payload < 4,
        0 <= from < 64,
        0 <= to < 64,
    ensures
        move_kind(move_code(kind, payload, from, to)) == kind,
        move_payload(move_code(kind, payload, from, to)) == payload,
        move_from(move_code(kind, payload, from, to)) == from,
        move_to(move_code(kind, payload, from, to)) == to,
{
    let v = kind * 16384 + payload * 4096 + from * 64 + to;
    assert(0 <= v < 65536);
    assert(v as u16 as int == v);
    assert(v / 64 == kind * 256 + payload * 64 + from);
    assert(v / 4096 == kind * 4 + payload);
    assert(v / 16384 == kind);
    assert(v % 64 == to);
    assert((kind * 256 + payload * 64 + from) % 64 == from);
    assert((kind * 4 + payload) % 4 == payload);
}

/// A code is built from its own fields.
pub proof fn lemma_move_code_of_fields(m: u16)
    ensures
        m == move_code(move_kind(m), move_payload(m), move_from(m), move_to(m)),
        0 <= move_kind(m) < 4,
        0 <= move_payload(m) < 4,
        0 <= move_from(m) < 64,
        0 <= move_to(m) < 64,
{
    let v = m as int;
    let a = v / 64;
    let b = v / 4096;
    let c = v / 16384;
    assert(b == a / 64);
    assert(c == b / 4);
    assert(v == a * 64 + v % 64);
    assert(a == b * 64 + a % 64);
    assert(b == c * 4 + b % 4);
}

impl Position {
    /// A pseudo-legal move leads from a valid position to a valid position.
    pub proof fn lemma_after_valid(self, m: u16)
        requires
            self.valid(),
            self.is_pseudo_legal(m),
        ensures
            self.after(m).valid(),
    {
        let next = self.after(m);
        let from = move_from(m);
        let to = move_to(m);
        lemma_move_code_of_fields(m);
        lemma_bit_sets(0, 0);
        lemma_board_of(|u: int| self.squares[u] != TypePiece::Empty);
        if move_kind(m) == 0 {
            let piece = self.squares[from];
            let pawn = piece.role() == 5;
            if pawn && (from - to == 16 || to - from == 16) {
                let e = (from + to) / 2;
                lemma_single(e);
                assert(pawn_push(self.white_to_move, from, to, self.occupancy()));
                assert(!bit(self.occupancy(), e));
                assert(!bit(self.en_passant, to)) by {
                    if bit(self.en_passant, to) {
                        assert(rank_of(to) == 2 || rank_of(to) == 5);
                    }
                }
            }
            assert(next.valid());
        } else if move_kind(m) == 1 {
            assert(next.valid());
        } else {
            assert(next.valid());
        }
    }
}

impl Position {
    /// A line of pseudo-legal moves, of six plies or of any other length, leads from a
    /// valid position to a valid position, in which the side that began is to move again
    /// exactly when the line has an even number of moves.
    pub proof fn lemma_line_keeps_valid(self, line: Seq<u16>)
        requires
            self.valid(),
            self.legal_line(line),
        ensures
            self.after_all(line).valid(),
            self.after_all(line).white_to_move == (self.white_to_move == (line.len() % 2 == 0)),
        decreases line.len(),
    {
        if line.len() > 0 {
            self.lemma_after_valid(line[0]);
            self.after(line[0]).lemma_line_keeps_valid(line.subrange(1, line.len() as int));
        }
    }
}

/// The bitboard of one square holds that square and no other.
pub proof fn lemma_single(e: int)
    requires
        0 <= e < 64,
    ensures
        forall|t: int| bit(single(e), t) == (t == e),
{
    lemma_bit_ops();
    assert forall|t: int| bit(single(e), t) == (t == e) by {
        if 0 <= t < 64 {
            assert(has_bit(1u64 << (e as u64), t as u64) == (t as u64 == e as u64));
        }
    }
}

} // verus!
