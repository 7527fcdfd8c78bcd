use vstd::prelude::*;
use crate::bits::{square_bit, test_bit};
use crate::board::{ChessBoard, TypePiece};
use crate::rules::{move_from, move_kind, move_payload, move_to};

verus! {

/// The fields of a move code, read with shifts and masks.
pub proof fn lemma_decode_bits(m: u16)
    by (bit_vector)
    ensures
        m & 63 == m % 64,
        (m >> 6) & 63 == (m / 64) % 64,
        (m >> 12) & 3 == (m / 4096) % 4,
        m >> 14 == m / 16384,
{
}

impl ChessBoard {
    /// Makes a normal move: the piece on the start square goes to the target square and
    /// takes what stands there, or, for a pawn on the en-passant square, the pawn behind
    /// it.
    pub fn make_move_normal(&mut self, move_code: u16)
        requires
            old(self).wf(),
            old(self)@.is_pseudo_legal(move_code),
            move_kind(move_code) == 0,
        ensures
            final(self).wf(),
            final(self)@ == old(self)@.after_normal(move_from(move_code), move_to(move_code)),
    {
        proof {
            lemma_decode_bits(move_code);
        }
        let to_index = (move_code & 63) as usize;
        let from_index = ((move_code >> 6) & 63) as usize;
        let white = self.is_white_to_play;
        let moving = self.pieces_by_index[from_index];
        let pawn = moving.index() % 6 == 5;
        let in_passing = pawn && test_bit(self.en_passant, to_index);

        self.put(to_index, moving);
        self.put(from_index, TypePiece::Empty);
        if in_passing {
            let victim: usize = if white {
                to_index + 8
            } else {
                to_index - 8
            };
            self.put(victim, TypePiece::Empty);
        }

        // update en-passant
        if pawn && (to_index + 16 == from_index || from_index + 16 == to_index) {
            self.en_passant = square_bit((to_index + from_index) / 2);
        } else {
            self.en_passant = 0;
        }

        // update castling
        self.king_side_castle = [
            self.king_side_castle[0] && to_index != 7 && from_index != 7 && to_index != 4
                && from_index != 4,
            self.king_side_castle[1] && to_index != 63 && from_index != 63 && to_index != 60
                && from_index != 60,
        ];
        self.queen_side_castle = [
            self.queen_side_castle[0] && to_index != 0 && from_index != 0 && to_index != 4
                && from_index != 4,
            self.queen_side_castle[1] && to_index != 56 && from_index != 56 && to_index != 60
                && from_index != 60,
        ];

        self.is_white_to_play = !self.is_white_to_play;

        proof {
            let next = old(self)@.after_normal(from_index as int, to_index as int);
            assert(self@.squares =~= next.squares);
            assert(self@.king_side_castle =~= next.king_side_castle);
            assert(self@.queen_side_castle =~= next.queen_side_castle);
            old(self)@.lemma_after_valid(move_code);
        }
    }

    /// Makes a promotion: the pawn leaves the start square and the piece that the
    /// payload names appears on the target square, in place of what stood there.
    pub fn make_move_promotion(&mut self, move_code: u16)
        requires
            old(self).wf(),
            old(self)@.is_pseudo_legal(move_code),
            move_kind(move_code) == 2,
        ensures
            final(self).wf(),
            final(self)@ == old(self)@.after_promotion(
                move_from(move_code),
                move_to(move_code),
                move_payload(move_code),
            ),
    {
        proof {
            lemma_decode_bits(move_code);
        }
        let to_index = (move_code & 63) as usize;
        let from_index = ((move_code >> 6) & 63) as usize;
        let to_promotion = ((move_code >> 12) & 3) as usize;
        let promotion_piece_type = self.pieces_by_index[from_index].index() - 4 + to_promotion;

        self.put(to_index, TypePiece::from_index(promotion_piece_type));
        self.put(from_index, TypePiece::Empty);

        // update en-passant
        self.en_passant = 0;

        // update castling
        self.king_side_castle = [
            self.king_side_castle[0] && to_index != 7 && from_index != 7 && to_index != 4
                && from_index != 4,
            self.king_side_castle[1] && to_index != 63 && from_index != 63 && to_index != 60
                && from_index != 60,
        ];
        self.queen_side_castle = [
            self.queen_side_castle[0] && to_index != 0 && from_index != 0 && to_index != 4
                && from_index != 4,
            self.queen_side_castle[1] && to_index != 56 && from_index != 56 && to_index != 60
                && from_index != 60,
        ];

        self.is_white_to_play = !self.is_white_to_play;

        proof {
            let next = old(self)@.after_promotion(
                from_index as int,
                to_index as int,
                to_promotion as int,
            );
            assert(self@.squares =~= next.squares);
            assert(self@.king_side_castle =~= next.king_side_castle);
            assert(self@.queen_side_castle =~= next.queen_side_castle);
            old(self)@.lemma_after_valid(move_code);
        }
    }

    /// Makes the castling that the payload names: 0 White's on the king's side, 1
    /// White's on the queen's side, 2 and 3 the same for Black.
    pub fn make_move_castling(&mut self, move_code: u16)
        requires
            old(self).wf(),
            old(self)@.is_pseudo_legal(move_code),
            move_kind(move_code) == 1,
        ensures
            final(self).wf(),
            final(self)@ == old(self)@.after_castling(move_payload(move_code)),
    {
        proof {
            lemma_decode_bits(move_code);
        }
        let payload = (move_code >> 12) & 3;
        let (king_from_index, king_to_index, rook_from_index, rook_to_index, color, king_type, rook_type): (
            usize,
            usize,
            usize,
            usize,
            usize,
            TypePiece,
            TypePiece,
        ) = if payload == 0 {
            (60, 62, 63, 61, 1, TypePiece::WhiteKing, TypePiece::WhiteRook)
        } else if payload == 1 {
            (60, 58, 56, 59, 1, TypePiece::WhiteKing, TypePiece::WhiteRook)
        } else if payload == 2 {
            (4, 6, 7, 5, 0, TypePiece::BlackKing, TypePiece::BlackRook)
        } else {
            (4, 2, 0, 3, 0, TypePiece::BlackKing, TypePiece::BlackRook)
        };

        self.put(king_from_index, TypePiece::Empty);
        self.put(rook_from_index, TypePiece::Empty);
        self.put(king_to_index, king_type);
        self.put(rook_to_index, rook_type);

        self.king_side_castle[color] = false;
        self.queen_side_castle[color] = false;

        self.en_passant = 0;

        self.is_white_to_play = !self.is_white_to_play;

        proof {
            let next = old(self)@.after_castling(payload as int);
            assert(self@.squares =~= next.squares);
            assert(self@.king_side_castle =~= next.king_side_castle);
            assert(self@.queen_side_castle =~= next.queen_side_castle);
            old(self)@.lemma_after_valid(move_code);
        }
    }

    /// Makes the move with the code `move_code`, which must be one of the pseudo-legal
    /// moves of the position, and hands the turn to the other side.
    pub fn make_move(&mut self, move_code: u16)
        requires
            old(self).wf(),
            old(self)@.is_pseudo_legal(move_code),
        ensures
            final(self).wf(),
            final(self)@ == old(self)@.after(move_code),
    {
        proof {
            lemma_decode_bits(move_code);
        }
        let type_move = move_code >> 14;
        if type_move == 1 {
            self.make_move_castling(move_code);
        } else if type_move == 2 {
            self.make_move_promotion(move_code);
        } else {
            self.make_move_normal(move_code);
        }
    }
}

} // verus!
