use vstd::prelude::*;
use vstd::seq_lib::seq_to_set_is_finite;
use vstd::set_lib::lemma_len_subset;
use crate::binary_mask::MainHashtables;
use crate::bits::{
    bit, has_bit, lemma_bit_sets, lemma_board_of, lemma_board_of_is, lowest_square, without_square,
};
use crate::board::{ChessBoard, TypePiece};
use crate::geometry::{
    bishop_attack, king_step, knight_step, pawn_capture, pawn_push, pawn_push_keyed, rook_attack,
};
use crate::rules::{
    at_most, colour_index, last_rank, lemma_move_code_fields, lemma_move_code_of_fields, move_code,
    move_from, move_kind, move_payload, move_to,
};

verus! {

/// A list of move codes in a buffer of fixed size: the first `move_number` entries of
/// `moves` count, the rest is left over from earlier use.
pub struct MovesStruct {
    pub moves: [u16; 255],
    pub move_number: u8,
}

impl View for MovesStruct {
    type V = Seq<u16>;

    open spec fn view(&self) -> Seq<u16> {
        self.moves@.subrange(0, self.move_number as int)
    }
}

/// The codes of `s` differ from one another and `allowed` admits each.
pub open spec fn listed(s: Seq<u16>, allowed: spec_fn(u16) -> bool) -> bool {
    s.no_duplicates() && forall|i: int| 0 <= i < s.len() ==> allowed(#[trigger] s[i])
}

/// A list stays without repetition, and within what `allowed` admits, when a new code
/// that `allowed` admits is appended; it then holds that code and what it held.
proof fn lemma_push_listed(s: Seq<u16>, m: u16, allowed: spec_fn(u16) -> bool)
    requires
        listed(s, allowed),
        allowed(m),
        !s.contains(m),
    ensures
        listed(s.push(m), allowed),
        forall|x: u16| #[trigger] s.push(m).contains(x) <==> s.contains(x) || x == m,
{
    let r = s.push(m);
    assert forall|i: int, j: int| 0 <= i < r.len() && 0 <= j < r.len() && i != j implies r[i]
        != r[j] by {
        if i < s.len() {
            assert(s.contains(s[i]));
        }
        if j < s.len() {
            assert(s.contains(s[j]));
        }
    }
    assert forall|x: u16| r.contains(x) <==> s.contains(x) || x == m by {
        if s.contains(x) {
            let i = choose|i: int| 0 <= i < s.len() && s[i] == x;
            assert(r[i] == x);
        }
        if x == m {
            assert(r[s.len() as int] == x);
        }
    }
}

/// Shifting the four fields into place and joining them gives the code with those
/// fields.
proof fn lemma_code_bits(k: u16, p: u16, f: u16, t: u16)
    by (bit_vector)
    requires
        k < 4,
        p < 4,
        f < 64,
        t < 64,
    ensures
        (k << 14) | (p << 12) | (f << 6) | t == k * 16384 + p * 4096 + f * 64 + t,
{
}

/// The move code with the given kind, payload and squares.
pub fn encode_move(kind: u16, payload: u16, from: u16, to: u16) -> (m: u16)
    requires
        kind < 4,
        payload < 4,
        from < 64,
        to < 64,
    ensures
        m == move_code(kind as int, payload as int, from as int, to as int),
{
    proof {
        lemma_code_bits(kind, payload, from, to);
    }
    (kind << 14) | (payload << 12) | (from << 6) | to
}

impl MovesStruct {
    /// An empty list in a buffer of zeros.
    pub fn init() -> (r: MovesStruct)
        ensures
            r@ == Seq::<u16>::empty(),
            r.move_number == 0,
            forall|i: int| 0 <= i < 255 ==> r.moves[i] == 0,
    {
        MovesStruct { moves: [0u16;255], move_number: 0 }
    }

    /// Empties the list. The buffer keeps what it held.
    pub fn reset(&mut self)
        ensures
            final(self)@ == Seq::<u16>::empty(),
            final(self).move_number == 0,
            final(self).moves == old(self).moves,
    {
        self.move_number = 0;
    }

    /// Appends a code to a list that is not full.
    pub fn push(&mut self, move_code: u16)
        requires
            old(self).move_number <= 254,
        ensures
            final(self)@ == old(self)@.push(move_code),
            final(self).move_number == old(self).move_number + 1,
            final(self).moves@ == old(self).moves@.update(old(self).move_number as int, move_code),
    {
        self.moves[self.move_number as usize] = move_code;
        self.move_number += 1;
        assert(self@ =~= old(self)@.push(move_code));
    }

    /// Appends a code that `allowed` admits and that is not yet in the list, if the list
    /// has room. A full list is left as it is: then `allowed` admits more than 255 codes.
    fn push_new(&mut self, move_code: u16, Ghost(allowed): Ghost<spec_fn(u16) -> bool>) -> (ok:
        bool)
        requires
            listed(old(self)@, allowed),
            allowed(move_code),
            !old(self)@.contains(move_code),
        ensures
            ok == (old(self).move_number < 255),
            listed(final(self)@, allowed),
            ok ==> final(self)@ == old(self)@.push(move_code),
            ok ==> forall|x: u16| #[trigger]
                final(self)@.contains(x) <==> old(self)@.contains(x) || x == move_code,
            !ok ==> final(self)@ == old(self)@ && !at_most(allowed, 255),
    {
        proof {
            lemma_push_listed(self@, move_code, allowed);
            assert(self@.push(move_code).no_duplicates());
        }
        if self.move_number == 255 {
            return false;
        }
        self.push(move_code);
        true
    }
}

/// Appends a normal move from `from_index` to each square of `mask`, as long as the list
/// has room.
fn move_mask_to_u16(
    from_index: u8,
    mask: u64,
    moves: &mut MovesStruct,
    Ghost(allowed): Ghost<spec_fn(u16) -> bool>,
) -> (ok: bool)
    requires
        from_index < 64,
        listed(old(moves)@, allowed),
        forall|t: int| #[trigger]
            bit(mask, t) ==> allowed(move_code(0, 0, from_index as int, t)) && !old(
                moves,
            )@.contains(move_code(0, 0, from_index as int, t)),
    ensures
        listed(final(moves)@, allowed),
        !ok ==> !at_most(allowed, 255) && final(moves)@.len() == 255,
        ok ==> forall|m: u16| #[trigger]
            final(moves)@.contains(m) <==> old(moves)@.contains(m) || (move_kind(m) == 0
                && move_payload(m) == 0 && move_from(m) == from_index && bit(mask, move_to(m))),
{
    let mut rest = mask;
    let mut ok = true;
    while rest != 0 && ok
        invariant
            from_index < 64,
            listed(moves@, allowed),
            !ok ==> !at_most(allowed, 255) && moves@.len() == 255,
            forall|t: int| bit(rest, t) ==> bit(mask, t),
            forall|t: int| #[trigger]
                bit(mask, t) ==> allowed(move_code(0, 0, from_index as int, t)) && !old(
                    moves,
                )@.contains(move_code(0, 0, from_index as int, t)),
            forall|m: u16| #[trigger]
                moves@.contains(m) <==> old(moves)@.contains(m) || (move_kind(m) == 0
                    && move_payload(m) == 0 && move_from(m) == from_index && bit(mask, move_to(m))
                    && !bit(rest, move_to(m))),
        decreases
                (if ok {
                    1int
                } else {
                    0int
                }),
                rest,
    {
        let to_index = lowest_square(rest);
        let code = encode_move(0, 0, from_index as u16, to_index as u16);
        proof {
            lemma_move_code_fields(0, 0, from_index as int, to_index as int);
        }
        if moves.push_new(code, Ghost(allowed)) {
            rest = without_square(rest, to_index);
            proof {
                assert forall|m: u16|
                    move_kind(m) == 0 && move_payload(m) == 0 && move_from(m) == from_index
                        && move_to(m) == to_index implies m == code by {
                    lemma_move_code_of_fields(m);
                }
            }
        } else {
            ok = false;
        }
    }
    proof {
        lemma_bit_sets(0, 0);
    }
    ok
}

/// Appends the moves of a pawn on `from_index` to each square of `mask`, as long as the
/// list has room: one normal move, or onto a back rank the four promotions.
fn pawn_move_mask_to_u16(
    from_index: u8,
    mask: u64,
    moves: &mut MovesStruct,
    Ghost(allowed): Ghost<spec_fn(u16) -> bool>,
) -> (ok: bool)
    requires
        from_index < 64,
        listed(old(moves)@, allowed),
        forall|m: u16|
            move_from(m) == from_index && bit(mask, move_to(m)) && pawn_kind(m) ==> allowed(m)
                && !old(moves)@.contains(m),
    ensures
        listed(final(moves)@, allowed),
        !ok ==> !at_most(allowed, 255) && final(moves)@.len() == 255,
        ok ==> forall|m: u16| #[trigger]
            final(moves)@.contains(m) <==> old(moves)@.contains(m) || (move_from(m) == from_index
                && bit(mask, move_to(m)) && pawn_kind(m)),
{
    let mut rest = mask;
    let mut ok = true;
    while rest != 0 && ok
        invariant
            from_index < 64,
            listed(moves@, allowed),
            !ok ==> !at_most(allowed, 255) && moves@.len() == 255,
            forall|t: int| bit(rest, t) ==> bit(mask, t),
            forall|m: u16|
                move_from(m) == from_index && bit(mask, move_to(m)) && pawn_kind(m) ==> allowed(m)
                    && !old(moves)@.contains(m),
            ok ==> forall|m: u16| #[trigger]
                moves@.contains(m) <==> old(moves)@.contains(m) || (move_from(m) == from_index
                    && bit(mask, move_to(m)) && pawn_kind(m) && !bit(rest, move_to(m))),
        decreases
                (if ok {
                    1int
                } else {
                    0int
                }),
                rest,
    {
        let to_index = lowest_square(rest);
        let ghost before = moves@;
        if to_index < 8 || to_index > 55 {
            ok = push_promotions(from_index, to_index as u8, moves, Ghost(allowed));
        } else {
            let code = encode_move(0, 0, from_index as u16, to_index as u16);
            proof {
                lemma_move_code_fields(0, 0, from_index as int, to_index as int);
            }
            ok = moves.push_new(code, Ghost(allowed));
            proof {
                assert forall|m: u16|
                    move_from(m) == from_index && move_to(m) == to_index && pawn_kind(
                        m,
                    ) implies m == code by {
                    lemma_move_code_of_fields(m);
                }
            }
        }
        if ok {
            rest = without_square(rest, to_index);
        }
    }
    proof {
        lemma_bit_sets(0, 0);
    }
    ok
}

/// Appends the four promotions from `from_index` to `to_index`, as long as the list has
/// room.
fn push_promotions(
    from_index: u8,
    to_index: u8,
    moves: &mut MovesStruct,
    Ghost(allowed): Ghost<spec_fn(u16) -> bool>,
) -> (ok: bool)
    requires
        from_index < 64,
        to_index < 64,
        last_rank(to_index as int),
        listed(old(moves)@, allowed),
        forall|m: u16|
            move_from(m) == from_index && move_to(m) == to_index && move_kind(m) == 2 ==> allowed(
                m,
            ) && !old(moves)@.contains(m),
    ensures
        listed(final(moves)@, allowed),
        !ok ==> !at_most(allowed, 255) && final(moves)@.len() == 255,
        ok ==> forall|m: u16| #[trigger]
            final(moves)@.contains(m) <==> old(moves)@.contains(m) || (move_from(m) == from_index
                && move_to(m) == to_index && move_kind(m) == 2),
{
    let q = encode_move(2, 0, from_index as u16, to_index as u16);
    let r = encode_move(2, 1, from_index as u16, to_index as u16);
    let b = encode_move(2, 2, from_index as u16, to_index as u16);
    let n = encode_move(2, 3, from_index as u16, to_index as u16);
    proof {
        lemma_move_code_fields(2, 0, from_index as int, to_index as int);
        lemma_move_code_fields(2, 1, from_index as int, to_index as int);
        lemma_move_code_fields(2, 2, from_index as int, to_index as int);
        lemma_move_code_fields(2, 3, from_index as int, to_index as int);
        assert forall|m: u16|
            move_from(m) == from_index && move_to(m) == to_index && move_kind(m) == 2 implies m == q
            || m == r || m == b || m == n by {
            lemma_move_code_of_fields(m);
        }
    }
    if !moves.push_new(q, Ghost(allowed)) {
        return false;
    }
    let ghost s1 = moves@;
    if !moves.push_new(r, Ghost(allowed)) {
        return false;
    }
    let ghost s2 = moves@;
    if !moves.push_new(b, Ghost(allowed)) {
        return false;
    }
    let ghost s3 = moves@;
    if !moves.push_new(n, Ghost(allowed)) {
        return false;
    }
    proof {
        assert forall|m: u16| #[trigger]
            moves@.contains(m) <==> old(moves)@.contains(m) || m == q || m == r || m == b || m
                == n by {
            assert(s1.contains(m) <==> old(moves)@.contains(m) || m == q);
            assert(s2.contains(m) <==> s1.contains(m) || m == r);
            assert(s3.contains(m) <==> s2.contains(m) || m == b);
            assert(moves@.contains(m) <==> s3.contains(m) || m == n);
        }
    }
    true
}

/// The kind and payload of `m` are those of a pawn's move to its target: a promotion,
/// with any payload, onto a back rank, and a normal move elsewhere.
pub open spec fn pawn_kind(m: u16) -> bool {
    if last_rank(move_to(m)) {
        move_kind(m) == 2
    } else {
        move_kind(m) == 0 && move_payload(m) == 0
    }
}

/// The squares between king and rook, for each of the four castlings, as masks.
proof fn lemma_castle_masks(b: u64)
    by (bit_vector)
    ensures
        (b & 0x6000_0000_0000_0000 == 0) == (!has_bit(b, 61) && !has_bit(b, 62)),
        (b & 0x0e00_0000_0000_0000 == 0) == (!has_bit(b, 57) && !has_bit(b, 58) && !has_bit(b, 59)),
        (b & 0x60 == 0) == (!has_bit(b, 5) && !has_bit(b, 6)),
        (b & 0x0e == 0) == (!has_bit(b, 1) && !has_bit(b, 2) && !has_bit(b, 3)),
{
}

/// The key of a pawn holds in bit 0 whether the first key square is occupied and in bit
/// 1 whether the second is.
proof fn lemma_pawn_key(b: u64, single: u64, double: u64)
    by (bit_vector)
    requires
        single < 64,
        double < 64,
    ensures
        ((b >> single) & 1) | (((b >> double) & 1) << 1) < 4,
        ((((b >> single) & 1) | (((b >> double) & 1) << 1)) % 2 == 1) == has_bit(b, single),
        ((((b >> single) & 1) | (((b >> double) & 1) << 1)) / 2 == 1) == has_bit(b, double),
{
}

impl ChessBoard {
    /// On a well-formed board the bitboard of all pieces is the occupancy of the position.
    pub proof fn lemma_occupancy(&self)
        requires
            self.wf(),
        ensures
            self@.occupancy() == self.board,
    {
        let p = self@;
        assert forall|u: int| 0 <= u < 64 implies bit(self.board, u) == (p.squares[u]
            != TypePiece::Empty) by {}
        lemma_board_of_is(|u: int| p.squares[u] != TypePiece::Empty, self.board);
    }

    /// What every function that lists the moves of one piece starts from: the board and
    /// the tables are well formed, `player` is the bitboard of the side to move, one of
    /// its pieces stands on `index`, and the list holds pseudo-legal moves of other
    /// pieces only, each once.
    pub open spec fn piece_ready(
        &self,
        index: u8,
        ma: &MainHashtables,
        player: u64,
        listed_moves: Seq<u16>,
    ) -> bool {
        &&& self.wf()
        &&& ma.wf()
        &&& index < 64
        &&& player == self.players[colour_index(self.is_white_to_play)]
        &&& self.pieces_by_index[index as int].is_of(self.is_white_to_play)
        &&& listed(listed_moves, self@.legal())
        &&& forall|m: u16| listed_moves.contains(m) ==> move_from(m) != index
    }

    /// What every such function leaves. Where it had room (`ok`), the list has gained
    /// exactly the pseudo-legal moves that start on `index`. Where it ran full, it holds
    /// 255 moves and the position has more than 255 pseudo-legal moves. Either way the
    /// list still holds pseudo-legal moves only, each once.
    pub open spec fn piece_done(&self, index: u8, before: Seq<u16>, after: Seq<u16>, ok: bool) -> bool {
        &&& listed(after, self@.legal())
        &&& !ok ==> !self@.has_at_most(255) && after.len() == 255
        &&& ok ==> forall|m: u16| #[trigger]
            after.contains(m) <==> before.contains(m) || (self@.is_pseudo_legal(m) && move_from(m)
                == index)
    }

    /// Lists the normal moves of the piece on `index`, which is no pawn, to the squares
    /// of `mask`, the squares it reaches, as long as the list has room.
    fn push_reached(&self, index: u8, ma: &MainHashtables, player: u64, mask: u64, moves: &mut MovesStruct) -> (ok:
        bool)
        requires
            self.piece_ready(index, ma, player, old(moves)@),
            self.pieces_by_index[index as int].role() != 5,
            forall|t: int| 0 <= t < 64 ==> bit(mask, t) == self@.reaches(index as int, t),
        ensures
            listed(final(moves)@, self@.legal()),
            !ok ==> !self@.has_at_most(255) && final(moves)@.len() == 255,
            ok ==> forall|m: u16| #[trigger]
                final(moves)@.contains(m) <==> old(moves)@.contains(m) || (move_kind(m) == 0
                    && self@.is_pseudo_legal(m) && move_from(m) == index),
    {
        proof {
            assert forall|t: int| #[trigger] bit(mask, t) implies self@.legal()(
                move_code(0, 0, index as int, t),
            ) && !old(moves)@.contains(move_code(0, 0, index as int, t)) by {
                lemma_move_code_fields(0, 0, index as int, t);
            }
        }
        let ok = move_mask_to_u16(index, mask, moves, Ghost(self@.legal()));
        proof {
            if ok {
                assert forall|m: u16| #[trigger]
                    moves@.contains(m) <==> old(moves)@.contains(m) || (move_kind(m) == 0
                        && self@.is_pseudo_legal(m) && move_from(m) == index) by {
                    lemma_move_code_of_fields(m);
                }
            }
        }
        ok
    }

    /// A piece that is neither king nor pawn has normal moves only.
    proof fn lemma_only_normal(&self, index: u8)
        requires
            self.wf(),
            index < 64,
            1 <= self.pieces_by_index[index as int].role() <= 4,
        ensures
            forall|m: u16|
                self@.is_pseudo_legal(m) && move_from(m) == index ==> move_kind(m) == 0,
    {
    }

    /// Lists the moves of the rook on `index`.
    pub fn get_rook_moves(&self, index: u8, ma: &MainHashtables, player: u64, moves: &mut MovesStruct) -> (ok:
        bool)
        requires
            self.piece_ready(index, ma, player, old(moves)@),
            self.pieces_by_index[index as int].role() == 2,
        ensures
            self.piece_done(index, old(moves)@, final(moves)@, ok),
    {
        let rook_moves = ma.rook_moves(index as usize, self.board);
        proof {
            self.lemma_occupancy();
            self.lemma_only_normal(index);
            lemma_bit_sets(rook_moves, !player);
            lemma_bit_sets(player, 0);
            lemma_board_of(|t: int| rook_attack(index as int, t, self.board));
        }
        self.push_reached(index, ma, player, rook_moves & !player, moves)
    }

    /// Lists the moves of the bishop on `index`.
    pub fn get_bishop_moves(&self, index: u8, ma: &MainHashtables, player: u64, moves: &mut MovesStruct) -> (ok:
        bool)
        requires
            self.piece_ready(index, ma, player, old(moves)@),
            self.pieces_by_index[index as int].role() == 3,
        ensures
            self.piece_done(index, old(moves)@, final(moves)@, ok),
    {
        let bishop_moves = ma.bishop_moves(index as usize, self.board);
        proof {
            self.lemma_occupancy();
            self.lemma_only_normal(index);
            lemma_bit_sets(bishop_moves, !player);
            lemma_bit_sets(player, 0);
            lemma_board_of(|t: int| bishop_attack(index as int, t, self.board));
        }
        self.push_reached(index, ma, player, bishop_moves & !player, moves)
    }

    /// Lists the moves of the knight on `index`.
    pub fn get_knight_moves(&self, index: u8, ma: &MainHashtables, player: u64, moves: &mut MovesStruct) -> (ok:
        bool)
        requires
            self.piece_ready(index, ma, player, old(moves)@),
            self.pieces_by_index[index as int].role() == 4,
        ensures
            self.piece_done(index, old(moves)@, final(moves)@, ok),
    {
        let knight_moves = ma.knight_move_masks[index as usize];
        proof {
            self.lemma_only_normal(index);
            lemma_bit_sets(knight_moves, !player);
            lemma_bit_sets(player, 0);
            lemma_board_of(|t: int| knight_step(index as int, t));
        }
        self.push_reached(index, ma, player, knight_moves & !player, moves)
    }

    /// Lists the moves of the queen on `index`: those of a rook and those of a bishop.
    pub fn get_queen_moves(&self, index: u8, ma: &MainHashtables, player: u64, moves: &mut MovesStruct) -> (ok:
        bool)
        requires
            self.piece_ready(index, ma, player, old(moves)@),
            self.pieces_by_index[index as int].role() == 1,
        ensures
            self.piece_done(index, old(moves)@, final(moves)@, ok),
    {
        let bishop_moves = ma.bishop_moves(index as usize, self.board);
        let rook_moves = ma.rook_moves(index as usize, self.board);
        let queen_moves = bishop_moves | rook_moves;
        proof {
            self.lemma_occupancy();
            self.lemma_only_normal(index);
            lemma_bit_sets(bishop_moves, rook_moves);
            lemma_bit_sets(queen_moves, !player);
            lemma_bit_sets(player, 0);
            lemma_board_of(|t: int| rook_attack(index as int, t, self.board));
            lemma_board_of(|t: int| bishop_attack(index as int, t, self.board));
        }
        self.push_reached(index, ma, player, queen_moves & !player, moves)
    }
}

impl ChessBoard {
    /// Lists the moves of the king on `index`: its steps, and from its home square the
    /// castlings whose right is left and whose squares between king and rook are empty.
    pub fn get_king_moves(&self, index: u8, ma: &MainHashtables, player: u64, moves: &mut MovesStruct) -> (ok:
        bool)
        requires
            self.piece_ready(index, ma, player, old(moves)@),
            self.pieces_by_index[index as int].role() == 0,
        ensures
            self.piece_done(index, old(moves)@, final(moves)@, ok),
    {
        let king_moves = ma.king_move_masks[index as usize];
        proof {
            lemma_bit_sets(king_moves, !player);
            lemma_bit_sets(player, 0);
            lemma_board_of(|t: int| king_step(index as int, t));
            lemma_castle_masks(self.board);
        }
        if !self.push_reached(index, ma, player, king_moves & !player, moves) {
            return false;
        }
        let ghost normal = moves@;
        let white = self.is_white_to_play;
        let colour: usize = if white {
            1
        } else {
            0
        };
        let home: u8 = if white {
            60
        } else {
            4
        };
        let first: u16 = if white {
            0
        } else {
            2
        };
        let king_side_mask: u64 = if white {
            0x6000_0000_0000_0000
        } else {
            0x60
        };
        let queen_side_mask: u64 = if white {
            0x0e00_0000_0000_0000
        } else {
            0x0e
        };
        let king_side = index == home && self.king_side_castle[colour] && self.board
            & king_side_mask == 0;
        let queen_side = index == home && self.queen_side_castle[colour] && self.board
            & queen_side_mask == 0;
        proof {
            let b = self.board;
            assert(bit(b, 61) == has_bit(b, 61) && bit(b, 62) == has_bit(b, 62));
            assert(bit(b, 57) == has_bit(b, 57) && bit(b, 58) == has_bit(b, 58) && bit(b, 59)
                == has_bit(b, 59));
            assert(bit(b, 5) == has_bit(b, 5) && bit(b, 6) == has_bit(b, 6));
            assert(bit(b, 1) == has_bit(b, 1) && bit(b, 2) == has_bit(b, 2) && bit(b, 3)
                == has_bit(b, 3));
        }
        assert(king_side == (index == home && self@.castle_allowed(first as int)));
        assert(queen_side == (index == home && self@.castle_allowed(first + 1)));
        let ghost k_code = move_code(1, first as int, home as int, home + 2);
        let ghost q_code = move_code(1, first + 1, home as int, home - 2);
        proof {
            lemma_move_code_fields(1, first as int, home as int, home + 2);
            lemma_move_code_fields(1, first + 1, home as int, home - 2);
        }
        if king_side {
            let code = encode_move(1, first, home as u16, (home + 2) as u16);
            if !moves.push_new(code, Ghost(self@.legal())) {
                return false;
            }
        }
        let ghost mid = moves@;
        if queen_side {
            let code = encode_move(1, first + 1, home as u16, (home - 2) as u16);
            if !moves.push_new(code, Ghost(self@.legal())) {
                return false;
            }
        }
        proof {
            assert forall|m: u16| #[trigger]
                moves@.contains(m) <==> old(moves)@.contains(m) || (self@.is_pseudo_legal(m)
                    && move_from(m) == index) by {
                lemma_move_code_of_fields(m);
                assert(mid.contains(m) <==> normal.contains(m) || (king_side && m == k_code));
                assert(moves@.contains(m) <==> mid.contains(m) || (queen_side && m == q_code));
                if self@.is_pseudo_legal(m) && move_from(m) == index && move_kind(m) == 1 {
                    assert(m == k_code || m == q_code);
                }
            }
        }
        true
    }

    /// Lists the moves of the pawn on `index`: its pushes, its captures of pieces of the
    /// other side and its capture in passing, each onto a back rank as four promotions.
    pub fn get_pawn_moves(&self, index: u8, ma: &MainHashtables, player: u64, moves: &mut MovesStruct) -> (ok:
        bool)
        requires
            self.piece_ready(index, ma, player, old(moves)@),
            self.pieces_by_index[index as int].role() == 5,
        ensures
            self.piece_done(index, old(moves)@, final(moves)@, ok),
    {
        let white = self.is_white_to_play;
        let colour: usize = if white {
            1
        } else {
            0
        };
        let square = index as usize;
        let pawn_takes = ma.pawn_mask_takes_hashmaps[colour][square] & ((self.board ^ player)
            | self.en_passant);
        let single = ma.pawn_offsets[colour][square][0] as u64;
        let double = ma.pawn_offsets[colour][square][1] as u64;
        proof {
            lemma_pawn_key(self.board, single, double);
        }
        let hashkey = ((self.board >> single) & 1) | (((self.board >> double) & 1) << 1);
        let pawn_moves = ma.pawn_mask_blockers_hashmaps[colour][square][hashkey as usize];
        let mask = pawn_moves | pawn_takes;
        proof {
            let s = index as int;
            self.lemma_occupancy();
            lemma_bit_sets(pawn_moves, pawn_takes);
            lemma_bit_sets(ma.pawn_mask_takes_hashmaps[colour as int][s], (self.board ^ player)
                | self.en_passant);
            lemma_bit_sets(self.board ^ player, self.en_passant);
            lemma_bit_sets(self.board, player);
            lemma_board_of(|t: int| pawn_capture(white, s, t));
            lemma_board_of(|t: int| pawn_push_keyed(white, s, t, hashkey as int));
            assert forall|t: int| 0 <= t < 64 implies bit(mask, t) == self@.reaches(s, t) by {
                assert(pawn_push_keyed(white, s, t, hashkey as int) == pawn_push(
                    white,
                    s,
                    t,
                    self.board,
                ));
            }
            assert forall|m: u16|
                move_from(m) == index && bit(mask, move_to(m)) && pawn_kind(m) implies (
            self@.legal())(m) && !old(moves)@.contains(m) by {
                lemma_move_code_of_fields(m);
            }
        }
        let ok = pawn_move_mask_to_u16(index, mask, moves, Ghost(self@.legal()));
        proof {
            if ok {
                assert forall|m: u16| #[trigger]
                    moves@.contains(m) <==> old(moves)@.contains(m) || (self@.is_pseudo_legal(m)
                        && move_from(m) == index) by {
                    lemma_move_code_of_fields(m);
                }
            }
        }
        ok
    }

    /// Lists the pseudo-legal moves of the side to move, each once and in no promised
    /// order, as far as the list has room. The list is emptied first. The result says
    /// whether all of them found room: whether the position has no more than 255. Where
    /// it has more, the list is full: it holds 255 of them.
    pub fn get_moves_checked(&self, ma: &MainHashtables, moves: &mut MovesStruct) -> (ok: bool)
        requires
            self.wf(),
            ma.wf(),
        ensures
            ok == self@.has_at_most(255),
            final(moves)@.no_duplicates(),
            forall|m: u16| final(moves)@.contains(m) ==> self@.is_pseudo_legal(m),
            ok ==> forall|m: u16| self@.is_pseudo_legal(m) ==> final(moves)@.contains(m),
            !ok ==> final(moves)@.len() == 255,
    {
        let white = self.is_white_to_play;
        let colour: usize = if white {
            1
        } else {
            0
        };
        let player = self.players[colour];
        let mut player_pieces = player;
        let mut ok = true;
        moves.reset();
        while player_pieces != 0 && ok
            invariant
                self.wf(),
                ma.wf(),
                white == self.is_white_to_play,
                colour == colour_index(white),
                player == self.players[colour as int],
                listed(moves@, self@.legal()),
                !ok ==> !self@.has_at_most(255) && moves@.len() == 255,
                forall|u: int| bit(player_pieces, u) ==> bit(player, u),
                ok ==> forall|m: u16| #[trigger]
                    moves@.contains(m) <==> self@.is_pseudo_legal(m) && bit(player, move_from(m))
                        && !bit(player_pieces, move_from(m)),
            decreases
                    (if ok {
                        1int
                    } else {
                        0int
                    }),
                    player_pieces,
        {
            let i = lowest_square(player_pieces);
            let index = i as u8;
            let ghost before = moves@;
            ok = match self.pieces_by_index[i] {
                TypePiece::WhiteKing | TypePiece::BlackKing => self.get_king_moves(
                    index,
                    ma,
                    player,
                    moves,
                ),
                TypePiece::WhiteQueen | TypePiece::BlackQueen => self.get_queen_moves(
                    index,
                    ma,
                    player,
                    moves,
                ),
                TypePiece::WhiteRook | TypePiece::BlackRook => self.get_rook_moves(
                    index,
                    ma,
                    player,
                    moves,
                ),
                TypePiece::WhiteBishop | TypePiece::BlackBishop => self.get_bishop_moves(
                    index,
                    ma,
                    player,
                    moves,
                ),
                TypePiece::WhiteKnight | TypePiece::BlackKnight => self.get_knight_moves(
                    index,
                    ma,
                    player,
                    moves,
                ),
                TypePiece::WhitePawn | TypePiece::BlackPawn => self.get_pawn_moves(
                    index,
                    ma,
                    player,
                    moves,
                ),
                TypePiece::Empty => true,
            };
            assert(self.piece_done(index, before, moves@, ok));
            if ok {
                player_pieces = without_square(player_pieces, i);
            }
        }
        proof {
            lemma_bit_sets(0, 0);
            assert forall|m: u16| moves@.contains(m) implies self@.is_pseudo_legal(m) by {
                let i = choose|i: int| 0 <= i < moves@.len() && moves@[i] == m;
                assert(self@.legal()(moves@[i]));
            }
            if ok {
                assert forall|m: u16| self@.is_pseudo_legal(m) implies moves@.contains(m) by {
                    lemma_move_code_of_fields(m);
                    assert(self.pieces_by_index[move_from(m)].is_of(white));
                }
                assert forall|s: Seq<u16>| #[trigger]
                    s.no_duplicates() && (forall|i: int|
                        0 <= i < s.len() ==> (self@.legal())(s[i])) implies s.len() <= 255 by {
                    assert forall|i: int| 0 <= i < s.len() implies moves@.contains(s[i]) by {
                        assert((self@.legal())(s[i]));
                    }
                    lemma_no_longer(s, moves@);
                }
            }
        }
        ok
    }

    /// Lists every pseudo-legal move of the side to move, each once and in no promised
    /// order. The list is emptied first.
    pub fn get_moves(&self, ma: &MainHashtables, moves: &mut MovesStruct)
        requires
            self.wf(),
            ma.wf(),
            self@.has_at_most(255),
        ensures
            final(moves)@.no_duplicates(),
            forall|m: u16| #[trigger] final(moves)@.contains(m) <==> self@.is_pseudo_legal(m),
    {
        let all = self.get_moves_checked(ma, moves);
        assert(all);
    }
}

/// A list without repetition is no longer than a list that holds each of its entries.
pub proof fn lemma_no_longer(s: Seq<u16>, t: Seq<u16>)
    requires
        s.no_duplicates(),
        forall|i: int| 0 <= i < s.len() ==> t.contains(#[trigger] s[i]),
    ensures
        s.len() <= t.len(),
{
    assert forall|x: u16| s.to_set().contains(x) implies t.to_set().contains(x) by {
        let i = choose|i: int| 0 <= i < s.len() && s[i] == x;
        assert(t.contains(s[i]));
    }
    seq_to_set_is_finite(t);
    lemma_len_subset(s.to_set(), t.to_set());
    s.unique_seq_to_set();
    t.lemma_cardinality_of_set();
}

} // verus!
