use vstd::prelude::*;
use crate::bits::{
    bit, lemma_bit_ext, lemma_bit_sets, lemma_board_of, lemma_nonzero_has_square, single,
};
use crate::board::{ChessBoard, Position, TypePiece};
use crate::geometry::{between, file_of, path_clear, rank_of, rook_line};
use crate::get_moves::lemma_no_longer;
use crate::notation::{fen, lemma_fen_decides_position};
use crate::rules::{
    lemma_move_code_fields, lemma_move_code_of_fields, lemma_single, move_code, move_from,
    move_kind, move_payload, move_to,
};

verus! {

/// On a well-formed board the occupancy is the union of the two colours' bitboards.
pub proof fn lemma_occupancy_is_union(b: ChessBoard)
    requires
        b.wf(),
    ensures
        b.board == b.players[0] | b.players[1],
{
    lemma_bit_sets(b.players[0], b.players[1]);
    lemma_bit_ext(b.board, b.players[0] | b.players[1]);
}

/// On a well-formed board no square belongs to both colours.
pub proof fn lemma_colours_disjoint(b: ChessBoard)
    requires
        b.wf(),
    ensures
        b.players[0] & b.players[1] == 0,
{
    lemma_bit_sets(b.players[0], b.players[1]);
    lemma_bit_sets(0, 0);
    lemma_bit_ext(b.players[0] & b.players[1], 0);
}

/// On a well-formed board no square belongs to the bitboards of two kinds.
pub proof fn lemma_kinds_disjoint(b: ChessBoard, i: int, j: int)
    requires
        b.wf(),
        0 <= i < 13,
        0 <= j < 13,
        i != j,
    ensures
        b.pieces[i] & b.pieces[j] == 0,
{
    lemma_bit_sets(b.pieces[i], b.pieces[j]);
    lemma_bit_sets(0, 0);
    lemma_bit_ext(b.pieces[i] & b.pieces[j], 0);
}

/// The union of the first `n` bitboards by kind.
pub open spec fn union_of_kinds(b: ChessBoard, n: int) -> u64
    decreases n,
{
    if n <= 0 {
        0
    } else {
        union_of_kinds(b, n - 1) | b.pieces[n - 1]
    }
}

/// The union of the first `n` bitboards by kind holds the squares of the pieces whose
/// slot is below `n`.
proof fn lemma_union_of_kinds(b: ChessBoard, n: int)
    requires
        b.wf(),
        0 <= n <= 12,
    ensures
        forall|u: int|
            0 <= u < 64 ==> bit(union_of_kinds(b, n), u) == (b.pieces_by_index[u].slot() < n),
    decreases n,
{
    lemma_bit_sets(0, 0);
    if n > 0 {
        lemma_union_of_kinds(b, n - 1);
        lemma_bit_sets(union_of_kinds(b, n - 1), b.pieces[n - 1]);
        assert forall|u: int| 0 <= u < 64 implies bit(union_of_kinds(b, n), u) == (
        b.pieces_by_index[u].slot() < n) by {
            assert(bit(b.pieces[n - 1], u) == (b.pieces_by_index[u].slot() == n - 1));
        }
    }
}

/// On a well-formed board the bitboards of the twelve kinds make up the occupancy.
pub proof fn lemma_kinds_make_occupancy(b: ChessBoard)
    requires
        b.wf(),
    ensures
        union_of_kinds(b, 12) == b.board,
{
    lemma_union_of_kinds(b, 12);
    lemma_bit_ext(union_of_kinds(b, 12), b.board);
}

/// On a well-formed board a square is in the bitboard of a kind of piece exactly when a
/// piece of that kind stands on it.
pub proof fn lemma_kind_bitboards(b: ChessBoard, k: int, sq: int)
    requires
        b.wf(),
        0 <= k < 12,
        0 <= sq < 64,
    ensures
        bit(b.pieces[k], sq) <==> b.pieces_by_index[sq].slot() == k,
{
}

/// On a well-formed board the en-passant bitboard holds at most one square.
pub proof fn lemma_one_en_passant_square(b: ChessBoard, t: int, u: int)
    requires
        b.wf(),
        bit(b.en_passant, t),
        bit(b.en_passant, u),
    ensures
        t == u,
{
}

/// On a well-formed board the en-passant bitboard is empty or holds a single square.
pub proof fn lemma_en_passant_empty_or_single(b: ChessBoard)
    requires
        b.wf(),
    ensures
        b.en_passant == 0 || exists|e: int| 0 <= e < 64 && b.en_passant == single(e),
{
    lemma_nonzero_has_square(b.en_passant);
    if b.en_passant != 0 {
        let e = choose|e: int| bit(b.en_passant, e);
        lemma_single(e);
        lemma_bit_ext(b.en_passant, single(e));
    }
}

/// On a well-formed board a side with exactly one king, on `k`, has the bitboard of that
/// single square for its king.
pub proof fn lemma_king_bitboard(b: ChessBoard, white: bool, k: int)
    requires
        b.wf(),
        b@.king_on(white, k),
    ensures
        b.pieces[if white {
            0int
        } else {
            6int
        }] == single(k),
{
    let slot = if white {
        0int
    } else {
        6int
    };
    lemma_single(k);
    assert forall|u: int| 0 <= u < 64 implies bit(b.pieces[slot], u) == bit(single(k), u) by {
        assert((b@.squares[u] == TypePiece::of_slot(slot)) == (u == k));
        assert(bit(b.pieces[slot], u) == (b.pieces_by_index[u].slot() == slot));
    }
    lemma_bit_ext(b.pieces[slot], single(k));
}

/// Two boards whose bitboards agree with their squares, and whose squares are the same,
/// have the same bitboards: the squares decide them.
pub proof fn lemma_squares_decide_bitboards(a: ChessBoard, b: ChessBoard)
    requires
        a.boards_agree(),
        b.boards_agree(),
        a.pieces_by_index@ == b.pieces_by_index@,
    ensures
        a.pieces_by_index == b.pieces_by_index,
        a.pieces == b.pieces,
        a.players == b.players,
        a.board == b.board,
{
    assert forall|u: int| 0 <= u < 64 implies a.pieces_by_index[u] == b.pieces_by_index[u] by {
        assert(a.pieces_by_index@[u] == b.pieces_by_index@[u]);
    }
    assert(a.pieces_by_index =~= b.pieces_by_index);
    assert forall|k: int| 0 <= k < 13 implies a.pieces[k] == b.pieces[k] by {
        if k < 12 {
            lemma_bit_ext(a.pieces[k], b.pieces[k]);
        }
    }
    assert(a.pieces =~= b.pieces);
    assert forall|c: int| 0 <= c < 2 implies a.players[c] == b.players[c] by {
        lemma_bit_ext(a.players[c], b.players[c]);
    }
    assert(a.players =~= b.players);
    lemma_bit_ext(a.board, b.board);
}

/// Two pairs of castling rights with the same entries are the same.
proof fn lemma_same_rights(a: [bool; 2], b: [bool; 2])
    requires
        a@ == b@,
    ensures
        a == b,
{
    assert forall|c: int| 0 <= c < 2 implies a[c] == b[c] by {
        assert(a@[c] == b@[c]);
    }
    assert(a =~= b);
}

/// Two well-formed boards of the same position are the same in every field: the
/// position decides the bitboards.
pub proof fn lemma_position_decides_board(a: ChessBoard, b: ChessBoard)
    requires
        a.wf(),
        b.wf(),
        a@ == b@,
    ensures
        a == b,
{
    lemma_squares_decide_bitboards(a, b);
    lemma_same_rights(a.king_side_castle, b.king_side_castle);
    lemma_same_rights(a.queen_side_castle, b.queen_side_castle);
}

/// Two boards with the same FEN text, whose bitboards agree with their squares, are the
/// same in every field that the text speaks of: squares, bitboards, side to move and
/// castling rights. Only the en-passant bitboard, of which the text says nothing, may
/// differ.
pub proof fn lemma_fen_decides_board(a: ChessBoard, b: ChessBoard)
    requires
        a.boards_agree(),
        b.boards_agree(),
        fen(a@) == fen(b@),
    ensures
        a.pieces_by_index == b.pieces_by_index,
        a.pieces == b.pieces,
        a.players == b.players,
        a.board == b.board,
        a.is_white_to_play == b.is_white_to_play,
        a.king_side_castle == b.king_side_castle,
        a.queen_side_castle == b.queen_side_castle,
{
    lemma_fen_decides_position(a@, b@);
    lemma_squares_decide_bitboards(a, b);
    lemma_same_rights(a.king_side_castle, b.king_side_castle);
    lemma_same_rights(a.queen_side_castle, b.queen_side_castle);
}

impl Position {
    /// The side `white` has exactly one king, on the square `k`.
    pub open spec fn king_on(self, white: bool, k: int) -> bool {
        &&& 0 <= k < 64
        &&& forall|u: int|
            0 <= u < 64 ==> (#[trigger] self.squares[u] == TypePiece::of_slot(
                if white {
                    0int
                } else {
                    6int
                },
            )) == (u == k)
    }

    /// The side `white` has exactly one king.
    pub open spec fn has_one_king(self, white: bool) -> bool {
        exists|k: int| self.king_on(white, k)
    }

    /// A pseudo-legal move that does not take a king leaves each side with as many kings
    /// as it had: a side with exactly one king keeps exactly one.
    pub proof fn lemma_kings_stay(self, m: u16, white: bool)
        requires
            self.valid(),
            self.is_pseudo_legal(m),
            self.has_one_king(white),
            self.squares[move_to(m)].role() != 0,
        ensures
            self.after(m).has_one_king(white),
    {
        let k = choose|k: int| self.king_on(white, k);
        let king = TypePiece::of_slot(
            if white {
                0int
            } else {
                6int
            },
        );
        let from = move_from(m);
        let to = move_to(m);
        let next = self.after(m);
        lemma_move_code_of_fields(m);
        let moves_king = if move_kind(m) == 1 {
            white == self.white_to_move
        } else {
            move_kind(m) == 0 && from == k
        };
        let k2 = if moves_king {
            to
        } else {
            k
        };
        assert(self.squares[k] == king);
        assert forall|u: int| 0 <= u < 64 implies (#[trigger] next.squares[u] == king) == (u
            == k2) by {
            assert((self.squares[u] == king) == (u == k));
        }
        assert(next.king_on(white, k2));
    }

    /// Along a line of pseudo-legal moves that takes no king, a side with exactly one
    /// king keeps exactly one.
    pub proof fn lemma_line_keeps_kings(self, line: Seq<u16>, white: bool)
        requires
            self.valid(),
            self.legal_line(line),
            self.spares_kings(line),
            self.has_one_king(white),
        ensures
            self.after_all(line).has_one_king(white),
        decreases line.len(),
    {
        if line.len() > 0 {
            self.lemma_after_valid(line[0]);
            self.lemma_kings_stay(line[0], white);
            self.after(line[0]).lemma_line_keeps_kings(
                line.subrange(1, line.len() as int),
                white,
            );
        }
    }

    /// Where a pawn can promote at all it can promote to each of the four pieces: the
    /// four promotion codes of one start and target square are pseudo-legal together.
    pub proof fn lemma_promotions_come_in_fours(self, m: u16, payload: int)
        requires
            self.is_pseudo_legal(m),
            move_kind(m) == 2,
            0 <= payload < 4,
        ensures
            self.is_pseudo_legal(move_code(2, payload, move_from(m), move_to(m))),
    {
        lemma_move_code_of_fields(m);
        lemma_move_code_fields(2, payload, move_from(m), move_to(m));
    }
}

/// The starting position is valid and each side has its one king in it.
pub proof fn lemma_starting_position()
    ensures
        Position::starting().valid(),
        Position::starting().has_one_king(true),
        Position::starting().has_one_king(false),
{
    let p = Position::starting();
    lemma_bit_sets(0, 0);
    assert(p.king_on(true, 60));
    assert(p.king_on(false, 4));
}

/// A board that holds the position reached from the start of a game by a line of
/// pseudo-legal moves that takes no king, of six plies or of any other length, has all
/// that a well-formed board has, and one king of each colour: the occupancy is the
/// union of the colours, the colours share no square, the kinds make up the occupancy,
/// the en-passant bitboard is empty or one square, and White is to move exactly after
/// an even number of moves.
pub proof fn lemma_game_keeps_invariants(b: ChessBoard, line: Seq<u16>)
    requires
        b.boards_agree(),
        b@ == Position::starting().after_all(line),
        Position::starting().legal_line(line),
        Position::starting().spares_kings(line),
    ensures
        b.wf(),
        b.board == b.players[0] | b.players[1],
        b.players[0] & b.players[1] == 0,
        union_of_kinds(b, 12) == b.board,
        b.en_passant == 0 || exists|e: int| 0 <= e < 64 && b.en_passant == single(e),
        b@.has_one_king(true),
        b@.has_one_king(false),
        b.is_white_to_play == (line.len() % 2 == 0),
{
    let start = Position::starting();
    lemma_starting_position();
    start.lemma_line_keeps_valid(line);
    start.lemma_line_keeps_kings(line, true);
    start.lemma_line_keeps_kings(line, false);
    lemma_occupancy_is_union(b);
    lemma_colours_disjoint(b);
    lemma_kinds_make_occupancy(b);
    lemma_en_passant_empty_or_single(b);
}

/// The `i`-th of the fourteen squares on the rank and the file of `s`: first the seven
/// others of its rank from file a on, then the seven others of its file from the eighth
/// rank down.
pub open spec fn rook_target(s: int, i: int) -> int {
    if i < 7 {
        rank_of(s) * 8 + if i < file_of(s) {
            i
        } else {
            i + 1
        }
    } else {
        (if i - 7 < rank_of(s) {
            i - 7
        } else {
            i - 6
        }) * 8 + file_of(s)
    }
}

/// A rook alone on the board has exactly fourteen pseudo-legal moves, on whatever square
/// it stands: every list of them without repetition that leaves none out has fourteen
/// entries.
pub proof fn lemma_lone_rook_has_fourteen_moves(p: Position, s: int, l: Seq<u16>)
    requires
        p.valid(),
        0 <= s < 64,
        p.squares[s].role() == 2,
        p.squares[s].is_of(p.white_to_move),
        forall|u: int| 0 <= u < 64 && u != s ==> p.squares[u] == TypePiece::Empty,
        l.no_duplicates(),
        forall|m: u16| l.contains(m) <==> p.is_pseudo_legal(m),
    ensures
        l.len() == 14,
{
    let occ = p.occupancy();
    lemma_board_of(|u: int| p.squares[u] != TypePiece::Empty);
    assert forall|t: int| rook_line(s, t) implies path_clear(s, t, occ) by {
        assert forall|u: int| between(s, t, u) implies !bit(occ, u) by {
            assert(u != s);
        }
    }
    assert forall|m: u16|
        p.is_pseudo_legal(m) <==> move_kind(m) == 0 && move_payload(m) == 0
            && move_from(m) == s && rook_line(s, move_to(m)) by {
        lemma_move_code_of_fields(m);
        if bit(p.en_passant, move_to(m)) {
        }
    }
    let w = Seq::new(14, |i: int| move_code(0, 0, s, rook_target(s, i)));
    assert forall|i: int| 0 <= i < 14 implies rook_line(s, rook_target(s, i)) && move_to(w[i])
        == rook_target(s, i) && p.is_pseudo_legal(#[trigger] w[i]) by {
        lemma_move_code_fields(0, 0, s, rook_target(s, i));
    }
    assert forall|i: int, j: int| 0 <= i < 14 && 0 <= j < 14 && i != j implies w[i] != w[j] by {
        assert(move_to(w[i]) == rook_target(s, i));
        assert(move_to(w[j]) == rook_target(s, j));
        assert(rook_target(s, i) != rook_target(s, j));
    }
    assert forall|i: int| 0 <= i < l.len() implies w.contains(#[trigger] l[i]) by {
        let m = l[i];
        assert(l.contains(m));
        lemma_move_code_of_fields(m);
        let t = move_to(m);
        let k = if rank_of(t) == rank_of(s) {
            if file_of(t) < file_of(s) {
                file_of(t)
            } else {
                file_of(t) - 1
            }
        } else {
            7 + if rank_of(t) < rank_of(s) {
                rank_of(t)
            } else {
                rank_of(t) - 1
            }
        };
        assert(rook_target(s, k) == t);
        assert(w[k] == m);
    }
    assert forall|i: int| 0 <= i < w.len() implies l.contains(#[trigger] w[i]) by {}
    lemma_no_longer(l, w);
    lemma_no_longer(w, l);
}

} // verus!
