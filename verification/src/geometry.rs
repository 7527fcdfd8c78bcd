use vstd::prelude::*;
use crate::bits::{bit, board_of};

verus! {

/// Squares are numbered 0 to 63. The file of a square runs from 0 (file a) to 7 (file h).
pub open spec fn file_of(s: int) -> int {
    s % 8
}

/// The rank index of a square: 0 is Black's back rank (the eighth rank), 7 is White's.
pub open spec fn rank_of(s: int) -> int {
    s / 8
}

/// `s` is one of the 64 squares.
pub open spec fn on_board(s: int) -> bool {
    0 <= s < 64
}

/// The sign of `a`: 1, 0 or -1.
pub open spec fn sign(a: int) -> int {
    if a > 0 {
        1
    } else if a < 0 {
        -1
    } else {
        0
    }
}

/// The absolute value of `a`.
pub open spec fn abs(a: int) -> int {
    if a < 0 {
        -a
    } else {
        a
    }
}

/// Chebyshev distance between two squares: the number of king steps from one to the other.
pub open spec fn dist(s: int, t: int) -> int {
    let df = abs(file_of(t) - file_of(s));
    let dr = abs(rank_of(t) - rank_of(s));
    if df > dr {
        df
    } else {
        dr
    }
}

/// `t` is another square on the rank or on the file of `s`.
pub open spec fn rook_line(s: int, t: int) -> bool {
    on_board(t) && s != t && (file_of(t) == file_of(s) || rank_of(t) == rank_of(s))
}

/// `t` is another square on one of the two diagonals through `s`.
pub open spec fn bishop_line(s: int, t: int) -> bool {
    on_board(t) && s != t && abs(file_of(t) - file_of(s)) == abs(rank_of(t) - rank_of(s))
}

/// `u` lies on the straight line from `s` to `t`, strictly between the two.
pub open spec fn between(s: int, t: int, u: int) -> bool {
    &&& rook_line(s, t) && rook_line(s, u) || bishop_line(s, t) && bishop_line(s, u)
    &&& sign(file_of(u) - file_of(s)) == sign(file_of(t) - file_of(s))
    &&& sign(rank_of(u) - rank_of(s)) == sign(rank_of(t) - rank_of(s))
    &&& dist(s, u) < dist(s, t)
}

/// `t` lies on the ray that leaves `s` in the direction `(dx, dy)`, each of -1, 0 or 1.
pub open spec fn on_ray(s: int, dx: int, dy: int, t: int) -> bool {
    &&& rook_line(s, t) || bishop_line(s, t)
    &&& sign(file_of(t) - file_of(s)) == dx
    &&& sign(rank_of(t) - rank_of(s)) == dy
}

/// No square strictly between `s` and `t` is occupied.
pub open spec fn path_clear(s: int, t: int, occ: u64) -> bool {
    forall|u: int| between(s, t, u) ==> !bit(occ, u)
}

/// A rook on `s` attacks `t` when the board is occupied as `occ` says: the squares along
/// its rank and file up to and including the first occupied one in each direction.
pub open spec fn rook_attack(s: int, t: int, occ: u64) -> bool {
    rook_line(s, t) && path_clear(s, t, occ)
}

/// A bishop on `s` attacks `t` when the board is occupied as `occ` says.
pub open spec fn bishop_attack(s: int, t: int, occ: u64) -> bool {
    bishop_line(s, t) && path_clear(s, t, occ)
}

/// A square on the rook's lines whose occupancy can change what the rook attacks: every
/// square of the line but the last one in each direction.
pub open spec fn rook_relevant(s: int, t: int) -> bool {
    &&& rook_line(s, t)
    &&& rank_of(t) == rank_of(s) ==> 1 <= file_of(t) <= 6
    &&& file_of(t) == file_of(s) ==> 1 <= rank_of(t) <= 6
}

/// A square on the bishop's diagonals whose occupancy can change what the bishop attacks.
pub open spec fn bishop_relevant(s: int, t: int) -> bool {
    bishop_line(s, t) && 1 <= file_of(t) <= 6 && 1 <= rank_of(t) <= 6
}

/// `t` is a knight's jump away from `s`.
pub open spec fn knight_step(s: int, t: int) -> bool {
    let df = abs(file_of(t) - file_of(s));
    let dr = abs(rank_of(t) - rank_of(s));
    on_board(t) && (df == 1 && dr == 2 || df == 2 && dr == 1)
}

/// `t` is one of the up to eight neighbours of `s`.
pub open spec fn king_step(s: int, t: int) -> bool {
    on_board(t) && dist(s, t) == 1
}

/// The relevance mask of a rook on `s` as a bitboard.
pub open spec fn rook_mask(s: int) -> u64 {
    board_of(|t: int| rook_relevant(s, t))
}

/// The relevance mask of a bishop on `s` as a bitboard.
pub open spec fn bishop_mask(s: int) -> u64 {
    board_of(|t: int| bishop_relevant(s, t))
}

/// What a rook on `s` attacks on the board `occ`, as a bitboard.
pub open spec fn rook_attacks(s: int, occ: u64) -> u64 {
    board_of(|t: int| rook_attack(s, t, occ))
}

/// What a bishop on `s` attacks on the board `occ`, as a bitboard.
pub open spec fn bishop_attacks(s: int, occ: u64) -> u64 {
    board_of(|t: int| bishop_attack(s, t, occ))
}

/// The squares a knight's jump away from `s`, as a bitboard.
pub open spec fn knight_attacks(s: int) -> u64 {
    board_of(|t: int| knight_step(s, t))
}

/// The neighbours of `s`, as a bitboard.
pub open spec fn king_attacks(s: int) -> u64 {
    board_of(|t: int| king_step(s, t))
}

/// The square a pawn on `s` reaches by a single push. White pawns move towards rank
/// index 0, black pawns towards rank index 7; the result is off the board for a pawn on
/// its last rank.
pub open spec fn pawn_single(white: bool, s: int) -> int {
    if white {
        s - 8
    } else {
        s + 8
    }
}

/// The square a pawn on `s` reaches by a double push.
pub open spec fn pawn_double(white: bool, s: int) -> int {
    if white {
        s - 16
    } else {
        s + 16
    }
}

/// `s` is on the rank from which pawns of that colour start, and may push two squares.
pub open spec fn pawn_on_start(white: bool, s: int) -> bool {
    rank_of(s) == if white {
        6int
    } else {
        1int
    }
}

/// `t` is one of the squares diagonally ahead of a pawn on `s`.
pub open spec fn pawn_capture(white: bool, s: int, t: int) -> bool {
    &&& on_board(t)
    &&& rank_of(t) == rank_of(pawn_single(white, s))
    &&& abs(file_of(t) - file_of(s)) == 1
}

/// A pawn on `s` can push to `t` when the board is occupied as `occ` says: one square
/// ahead if that square is empty, two from its start rank if both are.
pub open spec fn pawn_push(white: bool, s: int, t: int, occ: u64) -> bool {
    &&& on_board(t)
    &&& !bit(occ, pawn_single(white, s))
    &&& t == pawn_single(white, s) || pawn_on_start(white, s) && t == pawn_double(white, s)
        && !bit(occ, t)
}

/// The same as `pawn_push`, with the occupancy of the two squares ahead given as a key:
/// bit 0 is set when the single-push square is occupied, bit 1 when the double-push
/// square is.
pub open spec fn pawn_push_keyed(white: bool, s: int, t: int, key: int) -> bool {
    &&& on_board(t)
    &&& key % 2 == 0
    &&& t == pawn_single(white, s) || pawn_on_start(white, s) && t == pawn_double(white, s)
        && key / 2 == 0
}

/// The squares whose occupancy makes up the key of a pawn on `s`: the single-push square
/// and, from the start rank, the double-push square. Where there is no such square the
/// nearer one stands in, down to `s` itself.
pub open spec fn pawn_offset(white: bool, s: int, double: bool) -> int {
    if !on_board(pawn_single(white, s)) {
        s
    } else if double && pawn_on_start(white, s) {
        pawn_double(white, s)
    } else {
        pawn_single(white, s)
    }
}

/// The squares diagonally ahead of a pawn on `s`, as a bitboard.
pub open spec fn pawn_captures(white: bool, s: int) -> u64 {
    board_of(|t: int| pawn_capture(white, s, t))
}

/// The squares a pawn on `s` can push to under `key`, as a bitboard.
pub open spec fn pawn_pushes_keyed(white: bool, s: int, key: int) -> u64 {
    board_of(|t: int| pawn_push_keyed(white, s, t, key))
}

} // verus!
