use vstd::prelude::*;
use crate::bits::{bit, lemma_bit_sets, lemma_board_of_is, test_bit, with_square};
use crate::geometry::{
    abs, between, bishop_attack, bishop_attacks, bishop_line, bishop_mask, bishop_relevant, dist,
    king_attacks, king_step, knight_attacks, knight_step, on_ray, path_clear, pawn_capture,
    pawn_captures, pawn_offset, pawn_push_keyed, pawn_pushes_keyed, rook_attack, rook_attacks,
    rook_line, rook_mask, rook_relevant, sign,
};
use crate::magic::{
    find_magic, lemma_index_bound, lemma_relevant_blockers, magic_fits, magic_index, slider_mask,
    table_filled,
};

verus! {

/// How many candidates the magic search draws for one square before it gives up.
pub const MAGIC_ATTEMPTS: u32 = 1000000;

/// The relevance mask of one square and the magic number found for it.
#[derive(Clone, Copy, Debug)]
pub struct MagicEntry {
    pub mask: u64,
    pub magic_number: u64,
}

/// The magic search drew all its candidates for `square` without finding a magic number.
#[derive(Clone, Copy, Debug)]
pub struct MagicSearchError {
    /// Whether the search was for a bishop's table (else for a rook's).
    pub diagonal: bool,
    pub square: usize,
}

/// The attack tables. Colours index from 0 (Black) to 1 (White), squares from 0 to 63.
pub struct MainHashtables {
    pub rook_mask_blockers_hashmaps: Vec<Vec<Option<u64>>>,
    pub rook_moves_masks_magical_numbers: [MagicEntry; 64],
    pub bishop_mask_blockers_hashmaps: Vec<Vec<Option<u64>>>,
    pub bishop_moves_masks_magical_numbers: [MagicEntry; 64],
    pub knight_move_masks: [u64; 64],
    pub king_move_masks: [u64; 64],
    /// `[colour][square]`: the squares diagonally ahead of a pawn.
    pub pawn_mask_takes_hashmaps: [[u64; 64]; 2],
    /// `[colour][square][key]`: the squares a pawn can push to under the two-bit key.
    pub pawn_mask_blockers_hashmaps: [[[u64; 4]; 64]; 2],
    /// `[colour][square]`: the two squares whose occupancy makes up the key.
    pub pawn_offsets: [[[u8; 2]; 64]; 2],
}

/// The magic entries and tables of one kind of slider answer every occupancy of the
/// relevant squares of every square with the attack set under it, and the tables hold
/// nothing else: a slot that no occupancy hashes to is empty.
pub open spec fn sliders_ok(
    diagonal: bool,
    entries: [MagicEntry; 64],
    tables: Seq<Vec<Option<u64>>>,
) -> bool {
    &&& tables.len() == 64
    &&& forall|s: int|
        #![trigger entries[s]]
        #![trigger tables[s]]
        0 <= s < 64 ==> entries[s].mask == slider_mask(diagonal, s) && magic_fits(
            diagonal,
            s,
            entries[s].magic_number,
        ) && table_filled(diagonal, s, entries[s].magic_number, tables[s]@)
}

impl MainHashtables {
    /// Every table holds what its name says, for every square, colour and key.
    pub open spec fn wf(&self) -> bool {
        &&& sliders_ok(
            false,
            self.rook_moves_masks_magical_numbers,
            self.rook_mask_blockers_hashmaps@,
        )
        &&& sliders_ok(
            true,
            self.bishop_moves_masks_magical_numbers,
            self.bishop_mask_blockers_hashmaps@,
        )
        &&& forall|s: int| 0 <= s < 64 ==> #[trigger] self.knight_move_masks[s] == knight_attacks(s)
        &&& forall|s: int| 0 <= s < 64 ==> #[trigger] self.king_move_masks[s] == king_attacks(s)
        &&& forall|c: int, s: int|
            0 <= c < 2 && 0 <= s < 64 ==> #[trigger] self.pawn_mask_takes_hashmaps[c][s]
                == pawn_captures(c == 1, s)
        &&& forall|c: int, s: int, k: int|
            0 <= c < 2 && 0 <= s < 64 && 0 <= k < 4
                ==> #[trigger] self.pawn_mask_blockers_hashmaps[c][s][k] == pawn_pushes_keyed(
                c == 1,
                s,
                k,
            )
        &&& forall|c: int, s: int|
            0 <= c < 2 && 0 <= s < 64 ==> (#[trigger] self.pawn_offsets[c][s])[0] == pawn_offset(
                c == 1,
                s,
                false,
            ) && self.pawn_offsets[c][s][1] == pawn_offset(c == 1, s, true)
    }
}

/// The knight's attack set from every square.
pub fn get_knight_moves_masks() -> (moves: [u64; 64])
    ensures
        forall|s: int| 0 <= s < 64 ==> moves[s] == knight_attacks(s),
{
    let mut moves: [u64; 64] = [0; 64];
    let mut i: usize = 0;
    while i < 64
        invariant
            i <= 64,
            forall|s: int| 0 <= s < i ==> moves[s] == knight_attacks(s),
        decreases 64 - i,
    {
        moves[i] = step_mask(i, true);
        i += 1;
    }
    moves
}

/// The squares a knight (`knight` set) or a king (`knight` clear) on `sq` can step to.
fn step_mask(sq: usize, knight: bool) -> (m: u64)
    requires
        sq < 64,
    ensures
        m == if knight {
            knight_attacks(sq as int)
        } else {
            king_attacks(sq as int)
        },
{
    let x: usize = sq % 8;
    let y: usize = sq / 8;
    let mut m: u64 = 0;
    let mut t: usize = 0;
    proof {
        lemma_bit_sets(0, 0);
    }
    while t < 64
        invariant
            t <= 64,
            sq < 64,
            x == sq % 8,
            y == sq / 8,
            forall|u: int|
                bit(m, u) == (0 <= u < t && if knight {
                    knight_step(sq as int, u)
                } else {
                    king_step(sq as int, u)
                }),
        decreases 64 - t,
    {
        let tx: usize = t % 8;
        let ty: usize = t / 8;
        let df: usize = if tx > x { tx - x } else { x - tx };
        let dr: usize = if ty > y { ty - y } else { y - ty };
        let hit = if knight {
            df == 1 && dr == 2 || df == 2 && dr == 1
        } else {
            (df <= 1 && dr <= 1) && !(df == 0 && dr == 0)
        };
        assert(hit == if knight {
            knight_step(sq as int, t as int)
        } else {
            king_step(sq as int, t as int)
        });
        if hit {
            m = with_square(m, t);
        }
        t += 1;
    }
    proof {
        if knight {
            lemma_board_of_is(|u: int| knight_step(sq as int, u), m);
        } else {
            lemma_board_of_is(|u: int| king_step(sq as int, u), m);
        }
    }
    m
}

/// The squares along one ray from `sq` that a sliding piece attacks when the board is
/// occupied as `occ` says: the empty squares up to the first occupied one, and that one.
fn ray_attacks(sq: usize, dx: i8, dy: i8, occ: u64) -> (r: u64)
    requires
        sq < 64,
        -1 <= dx <= 1,
        -1 <= dy <= 1,
        dx != 0 || dy != 0,
    ensures
        forall|t: int| bit(r, t) == (on_ray(sq as int, dx as int, dy as int, t) && path_clear(sq as int, t, occ)),
{
    let x: i8 = (sq % 8) as i8;
    let y: i8 = (sq / 8) as i8;
    let mut cx: i8 = x + dx;
    let mut cy: i8 = y + dy;
    let mut r: u64 = 0;
    let mut blocked = false;
    let ghost s = sq as int;
    proof {
        lemma_bit_sets(0, 0);
    }
    while !blocked && 0 <= cx && cx < 8 && 0 <= cy && cy < 8
        invariant
            sq < 64,
            s == sq as int,
            x == s % 8,
            y == s / 8,
            -1 <= dx <= 1,
            -1 <= dy <= 1,
            dx != 0 || dy != 0,
            -1 <= cx <= 8,
            -1 <= cy <= 8,
            sign(cx - x) == dx,
            sign(cy - y) == dy,
            dx != 0 && dy != 0 ==> abs(cx - x) == abs(cy - y),
            forall|t: int|
                bit(r, t) == (on_ray(s, dx as int, dy as int, t) && dist(s, t) < ray_pos(
                    cx - x,
                    cy - y,
                ) && path_clear(s, t, occ)),
            !blocked ==> forall|u: int|
                on_ray(s, dx as int, dy as int, u) && dist(s, u) < ray_pos(cx - x, cy - y)
                    ==> !bit(occ, u),
            blocked ==> forall|t: int|
                on_ray(s, dx as int, dy as int, t) && dist(s, t) >= ray_pos(cx - x, cy - y)
                    ==> !path_clear(s, t, occ),
        decreases (if blocked { 0int } else { 1int }), 16 - ray_pos(cx - x, cy - y),
    {
        let cur: usize = (cy as usize) * 8 + (cx as usize);
        let ghost d = ray_pos(cx - x, cy - y);
        assert(on_ray(s, dx as int, dy as int, cur as int) && dist(s, cur as int) == d);
        assert(path_clear(s, cur as int, occ));
        let ghost before = r;
        r = with_square(r, cur);
        if test_bit(occ, cur) {
            blocked = true;
        }
        cx = cx + dx;
        cy = cy + dy;
        proof {
            assert forall|t: int| on_ray(s, dx as int, dy as int, t) && dist(s, t) == d implies t
                == cur by {}
            if blocked {
                assert forall|t: int|
                    on_ray(s, dx as int, dy as int, t) && dist(s, t) >= d + 1 implies !path_clear(
                    s,
                    t,
                    occ,
                ) by {
                    assert(between(s, t, cur as int));
                }
            }
        }
    }
    proof {
        if !blocked {
            assert forall|t: int| on_ray(s, dx as int, dy as int, t) implies dist(s, t) < ray_pos(
                cx - x,
                cy - y,
            ) by {}
        }
    }
    r
}

/// How far along its ray a cell lies that is `ax` files and `ay` ranks away from the start.
pub open spec fn ray_pos(ax: int, ay: int) -> int {
    if abs(ax) > abs(ay) {
        abs(ax)
    } else {
        abs(ay)
    }
}

/// The squares whose occupancy matters to a rook (`diagonal` clear) or a bishop
/// (`diagonal` set) on `sq`.
fn line_mask(sq: usize, diagonal: bool) -> (m: u64)
    requires
        sq < 64,
    ensures
        m == if diagonal {
            bishop_mask(sq as int)
        } else {
            rook_mask(sq as int)
        },
{
    let x: usize = sq % 8;
    let y: usize = sq / 8;
    let mut m: u64 = 0;
    let mut t: usize = 0;
    proof {
        lemma_bit_sets(0, 0);
    }
    while t < 64
        invariant
            t <= 64,
            sq < 64,
            x == sq % 8,
            y == sq / 8,
            forall|u: int|
                bit(m, u) == (0 <= u < t && if diagonal {
                    bishop_relevant(sq as int, u)
                } else {
                    rook_relevant(sq as int, u)
                }),
        decreases 64 - t,
    {
        let tx: usize = t % 8;
        let ty: usize = t / 8;
        let df: usize = if tx > x { tx - x } else { x - tx };
        let dr: usize = if ty > y { ty - y } else { y - ty };
        let hit = if diagonal {
            t != sq && df == dr && 1 <= tx && tx <= 6 && 1 <= ty && ty <= 6
        } else {
            t != sq && (df == 0 || dr == 0) && (dr != 0 || 1 <= tx && tx <= 6) && (df != 0 || 1
                <= ty && ty <= 6)
        };
        assert(hit == if diagonal {
            bishop_relevant(sq as int, t as int)
        } else {
            rook_relevant(sq as int, t as int)
        });
        if hit {
            m = with_square(m, t);
        }
        t += 1;
    }
    proof {
        if diagonal {
            lemma_board_of_is(|u: int| bishop_relevant(sq as int, u), m);
        } else {
            lemma_board_of_is(|u: int| rook_relevant(sq as int, u), m);
        }
    }
    m
}

/// For every square, the squares whose occupancy matters to a rook standing there.
pub fn get_rook_moves_masks() -> (moves: [u64; 64])
    ensures
        forall|s: int| 0 <= s < 64 ==> moves[s] == rook_mask(s),
{
    let mut moves: [u64; 64] = [0; 64];
    let mut i: usize = 0;
    while i < 64
        invariant
            i <= 64,
            forall|s: int| 0 <= s < i ==> moves[s] == rook_mask(s),
        decreases 64 - i,
    {
        moves[i] = line_mask(i, false);
        i += 1;
    }
    moves
}

/// For every square, the squares whose occupancy matters to a bishop standing there.
pub fn get_bishop_moves_masks() -> (moves: [u64; 64])
    ensures
        forall|s: int| 0 <= s < 64 ==> moves[s] == bishop_mask(s),
{
    let mut moves: [u64; 64] = [0; 64];
    let mut i: usize = 0;
    while i < 64
        invariant
            i <= 64,
            forall|s: int| 0 <= s < i ==> moves[s] == bishop_mask(s),
        decreases 64 - i,
    {
        moves[i] = line_mask(i, true);
        i += 1;
    }
    moves
}

/// The king's attack set from every square.
pub fn get_king_moves_masks() -> (moves: [u64; 64])
    ensures
        forall|s: int| 0 <= s < 64 ==> moves[s] == king_attacks(s),
{
    let mut moves: [u64; 64] = [0; 64];
    let mut i: usize = 0;
    while i < 64
        invariant
            i <= 64,
            forall|s: int| 0 <= s < i ==> moves[s] == king_attacks(s),
        decreases 64 - i,
    {
        moves[i] = step_mask(i, false);
        i += 1;
    }
    moves
}

/// What a rook on `index` attacks when the squares of `mask` are occupied: along each of
/// its four rays the empty squares and the first occupied one.
pub fn get_rook_moves_masks_collision(index: usize, mask: &u64) -> (collision_mask: u64)
    requires
        index < 64,
    ensures
        collision_mask == rook_attacks(index as int, *mask),
{
    let occ = *mask;
    let left = ray_attacks(index, -1, 0, occ);
    let right = ray_attacks(index, 1, 0, occ);
    let top = ray_attacks(index, 0, -1, occ);
    let bottom = ray_attacks(index, 0, 1, occ);
    let collision_mask = left | right | top | bottom;
    proof {
        lemma_bit_sets(left, right);
        lemma_bit_sets(left | right, top);
        lemma_bit_sets(left | right | top, bottom);
        let s = index as int;
        assert forall|t: int| 0 <= t < 64 implies bit(collision_mask, t) == rook_attack(
            s,
            t,
            occ,
        ) by {
            assert(rook_line(s, t) == (on_ray(s, -1, 0, t) || on_ray(s, 1, 0, t) || on_ray(
                s,
                0,
                -1,
                t,
            ) || on_ray(s, 0, 1, t)));
        }
        lemma_board_of_is(|t: int| rook_attack(s, t, occ), collision_mask);
    }
    collision_mask
}

/// What a bishop on `index` attacks when the squares of `mask` are occupied: along each of
/// its four diagonal rays the empty squares and the first occupied one.
pub fn get_bishop_moves_masks_collision(index: usize, mask: &u64) -> (collision_mask: u64)
    requires
        index < 64,
    ensures
        collision_mask == bishop_attacks(index as int, *mask),
{
    let occ = *mask;
    let a = ray_attacks(index, -1, -1, occ);
    let b = ray_attacks(index, 1, -1, occ);
    let c = ray_attacks(index, -1, 1, occ);
    let d = ray_attacks(index, 1, 1, occ);
    let collision_mask = a | b | c | d;
    proof {
        lemma_bit_sets(a, b);
        lemma_bit_sets(a | b, c);
        lemma_bit_sets(a | b | c, d);
        let s = index as int;
        assert forall|t: int| 0 <= t < 64 implies bit(collision_mask, t) == bishop_attack(
            s,
            t,
            occ,
        ) by {
            assert(bishop_line(s, t) == (on_ray(s, -1, -1, t) || on_ray(s, 1, -1, t) || on_ray(
                s,
                -1,
                1,
                t,
            ) || on_ray(s, 1, 1, t)));
        }
        lemma_board_of_is(|t: int| bishop_attack(s, t, occ), collision_mask);
    }
    collision_mask
}

impl MainHashtables {
    /// What a rook on `index` attacks on the board `board`, by its magic table.
    pub fn rook_moves(&self, index: usize, board: u64) -> (r: u64)
        requires
            self.wf(),
            index < 64,
        ensures
            r == rook_attacks(index as int, board),
    {
        let entry = self.rook_moves_masks_magical_numbers[index];
        let blockers = board & entry.mask;
        let hashkey = blockers.wrapping_mul(entry.magic_number) >> 48;
        proof {
            lemma_relevant_blockers(false, index as int, board);
            lemma_index_bound(blockers.wrapping_mul(entry.magic_number));
            assert(hashkey as int == magic_index(blockers, entry.magic_number));
        }
        self.rook_mask_blockers_hashmaps[index][hashkey as usize].unwrap()
    }

    /// What a bishop on `index` attacks on the board `board`, by its magic table.
    pub fn bishop_moves(&self, index: usize, board: u64) -> (r: u64)
        requires
            self.wf(),
            index < 64,
        ensures
            r == bishop_attacks(index as int, board),
    {
        let entry = self.bishop_moves_masks_magical_numbers[index];
        let blockers = board & entry.mask;
        let hashkey = blockers.wrapping_mul(entry.magic_number) >> 48;
        proof {
            lemma_relevant_blockers(true, index as int, board);
            lemma_index_bound(blockers.wrapping_mul(entry.magic_number));
            assert(hashkey as int == magic_index(blockers, entry.magic_number));
        }
        self.bishop_mask_blockers_hashmaps[index][hashkey as usize].unwrap()
    }
}

/// The squares diagonally ahead of a pawn on `sq`.
fn pawn_takes_mask(white: bool, sq: usize) -> (m: u64)
    requires
        sq < 64,
    ensures
        m == pawn_captures(white, sq as int),
{
    let x: usize = sq % 8;
    let ahead = if white {
        sq >= 8
    } else {
        sq < 56
    };
    let mut m: u64 = 0;
    proof {
        lemma_bit_sets(0, 0);
    }
    if ahead {
        let single: usize = if white {
            sq - 8
        } else {
            sq + 8
        };
        if x > 0 {
            m = with_square(m, single - 1);
        }
        if x < 7 {
            m = with_square(m, single + 1);
        }
    }
    proof {
        assert forall|t: int| 0 <= t < 64 implies bit(m, t) == pawn_capture(white, sq as int, t) by {}
        lemma_board_of_is(|t: int| pawn_capture(white, sq as int, t), m);
    }
    m
}

/// The squares a pawn on `sq` can push to under `key`.
fn pawn_push_mask(white: bool, sq: usize, key: usize) -> (m: u64)
    requires
        sq < 64,
        key < 4,
    ensures
        m == pawn_pushes_keyed(white, sq as int, key as int),
{
    let ahead = if white {
        sq >= 8
    } else {
        sq < 56
    };
    let mut m: u64 = 0;
    proof {
        lemma_bit_sets(0, 0);
    }
    if ahead && key % 2 == 0 {
        let single: usize = if white {
            sq - 8
        } else {
            sq + 8
        };
        m = with_square(m, single);
        let on_start = if white {
            sq / 8 == 6
        } else {
            sq / 8 == 1
        };
        if on_start && key / 2 == 0 {
            let double: usize = if white {
                sq - 16
            } else {
                sq + 16
            };
            m = with_square(m, double);
        }
    }
    proof {
        assert forall|t: int| 0 <= t < 64 implies bit(m, t) == pawn_push_keyed(
            white,
            sq as int,
            t,
            key as int,
        ) by {}
        lemma_board_of_is(|t: int| pawn_push_keyed(white, sq as int, t, key as int), m);
    }
    m
}

/// The key squares of a pawn on `sq`.
fn pawn_offset_pair(white: bool, sq: usize) -> (r: [u8; 2])
    requires
        sq < 64,
    ensures
        r[0] == pawn_offset(white, sq as int, false),
        r[1] == pawn_offset(white, sq as int, true),
{
    let ahead = if white {
        sq >= 8
    } else {
        sq < 56
    };
    if !ahead {
        [sq as u8, sq as u8]
    } else {
        let single: usize = if white {
            sq - 8
        } else {
            sq + 8
        };
        let on_start = if white {
            sq / 8 == 6
        } else {
            sq / 8 == 1
        };
        if on_start {
            let double: usize = if white {
                sq - 16
            } else {
                sq + 16
            };
            [single as u8, double as u8]
        } else {
            [single as u8, single as u8]
        }
    }
}

/// The capture table of one colour.
pub fn get_pawn_takes_masks(white: bool) -> (masks: [u64; 64])
    ensures
        forall|s: int| 0 <= s < 64 ==> masks[s] == pawn_captures(white, s),
{
    let mut masks: [u64; 64] = [0; 64];
    let mut i: usize = 0;
    while i < 64
        invariant
            i <= 64,
            forall|s: int| 0 <= s < i ==> masks[s] == pawn_captures(white, s),
        decreases 64 - i,
    {
        masks[i] = pawn_takes_mask(white, i);
        i += 1;
    }
    masks
}

/// The push table of one colour.
pub fn get_pawn_push_masks(white: bool) -> (masks: [[u64; 4]; 64])
    ensures
        forall|s: int, k: int|
            0 <= s < 64 && 0 <= k < 4 ==> #[trigger] masks[s][k] == pawn_pushes_keyed(white, s, k),
{
    let mut masks: [[u64; 4]; 64] = [[0; 4]; 64];
    let mut i: usize = 0;
    while i < 64
        invariant
            i <= 64,
            forall|s: int, k: int|
                0 <= s < i && 0 <= k < 4 ==> #[trigger] masks[s][k] == pawn_pushes_keyed(
                    white,
                    s,
                    k,
                ),
        decreases 64 - i,
    {
        masks[i] = [
            pawn_push_mask(white, i, 0),
            pawn_push_mask(white, i, 1),
            pawn_push_mask(white, i, 2),
            pawn_push_mask(white, i, 3),
        ];
        i += 1;
    }
    masks
}

/// The key squares of one colour.
pub fn get_pawn_offsets(white: bool) -> (offsets: [[u8; 2]; 64])
    ensures
        forall|s: int|
            0 <= s < 64 ==> (#[trigger] offsets[s])[0] == pawn_offset(white, s, false)
                && offsets[s][1] == pawn_offset(white, s, true),
{
    let mut offsets: [[u8; 2]; 64] = [[0; 2]; 64];
    let mut i: usize = 0;
    while i < 64
        invariant
            i <= 64,
            forall|s: int|
                0 <= s < i ==> (#[trigger] offsets[s])[0] == pawn_offset(white, s, false)
                    && offsets[s][1] == pawn_offset(white, s, true),
        decreases 64 - i,
    {
        offsets[i] = pawn_offset_pair(white, i);
        i += 1;
    }
    offsets
}

/// Searches a magic number for every square, drawing up to `attempts` candidates for
/// each, and fills `mask_blockers_hashmaps` with the attack sets. Stops with an error at
/// the first square for which no candidate fits.
pub fn search_magical_numbers(
    diagonal: bool,
    attempts: u32,
    mask_blockers_hashmaps: &mut Vec<Vec<Option<u64>>>,
) -> (r: Result<[MagicEntry; 64], MagicSearchError>)
    requires
        old(mask_blockers_hashmaps).len() == 64,
        forall|i: int| 0 <= i < 64 ==> (#[trigger] old(mask_blockers_hashmaps)[i]).len() == 65536,
    ensures
        final(mask_blockers_hashmaps).len() == 64,
        forall|i: int| 0 <= i < 64 ==> (#[trigger] final(mask_blockers_hashmaps)[i]).len() == 65536,
        attempts == 0 ==> r is Err,
        r matches Ok(entries) ==> sliders_ok(diagonal, entries, final(mask_blockers_hashmaps)@),
        r matches Err(e) ==> e.diagonal == diagonal && e.square < 64,
{
    let mut entries: [MagicEntry; 64] = [MagicEntry { mask: 0, magic_number: 0 };64];
    let masks = if diagonal {
        get_bishop_moves_masks()
    } else {
        get_rook_moves_masks()
    };
    let mut i: usize = 0;
    while i < 64
        invariant
            i <= 64,
            mask_blockers_hashmaps.len() == 64,
            forall|j: int| 0 <= j < 64 ==> (#[trigger] mask_blockers_hashmaps[j]).len() == 65536,
            forall|s: int| 0 <= s < 64 ==> #[trigger] masks[s] == slider_mask(diagonal, s),
            attempts == 0 ==> i == 0,
            forall|s: int|
                0 <= s < i ==> (#[trigger] entries[s]).mask == slider_mask(diagonal, s)
                    && magic_fits(diagonal, s, entries[s].magic_number) && table_filled(
                    diagonal,
                    s,
                    entries[s].magic_number,
                    mask_blockers_hashmaps[s]@,
                ),
        decreases 64 - i,
    {
        let mask = masks[i];
        match find_magic(diagonal, i, mask, attempts, &mut mask_blockers_hashmaps[i]) {
            Some(magic) => {
                entries[i] = MagicEntry { mask, magic_number: magic };
            },
            None => {
                return Err(MagicSearchError { diagonal, square: i });
            },
        }
        i += 1;
    }
    Ok(entries)
}

/// The rook's magic numbers and, in `mask_blockers_hashmaps`, its attack tables.
pub fn get_rook_moves_masks_magical_numbers(mask_blockers_hashmaps: &mut Vec<Vec<Option<u64>>>) -> (r:
    Result<[MagicEntry; 64], MagicSearchError>)
    requires
        old(mask_blockers_hashmaps).len() == 64,
        forall|i: int| 0 <= i < 64 ==> (#[trigger] old(mask_blockers_hashmaps)[i]).len() == 65536,
    ensures
        final(mask_blockers_hashmaps).len() == 64,
        forall|i: int| 0 <= i < 64 ==> (#[trigger] final(mask_blockers_hashmaps)[i]).len() == 65536,
        r matches Ok(entries) ==> sliders_ok(false, entries, final(mask_blockers_hashmaps)@),
        r matches Err(e) ==> !e.diagonal && e.square < 64,
{
    search_magical_numbers(false, MAGIC_ATTEMPTS, mask_blockers_hashmaps)
}

/// The bishop's magic numbers and, in `mask_blockers_hashmaps`, its attack tables.
pub fn get_bishop_moves_masks_magical_numbers(mask_blockers_hashmaps: &mut Vec<Vec<Option<u64>>>) -> (r:
    Result<[MagicEntry; 64], MagicSearchError>)
    requires
        old(mask_blockers_hashmaps).len() == 64,
        forall|i: int| 0 <= i < 64 ==> (#[trigger] old(mask_blockers_hashmaps)[i]).len() == 65536,
    ensures
        final(mask_blockers_hashmaps).len() == 64,
        forall|i: int| 0 <= i < 64 ==> (#[trigger] final(mask_blockers_hashmaps)[i]).len() == 65536,
        r matches Ok(entries) ==> sliders_ok(true, entries, final(mask_blockers_hashmaps)@),
        r matches Err(e) ==> e.diagonal && e.square < 64,
{
    search_magical_numbers(true, MAGIC_ATTEMPTS, mask_blockers_hashmaps)
}

/// Sixty-four empty tables of 65536 slots each.
pub fn empty_magic_tables() -> (tables: Vec<Vec<Option<u64>>>)
    ensures
        tables.len() == 64,
        forall|i: int| 0 <= i < 64 ==> (#[trigger] tables[i]).len() == 65536,
        forall|i: int, j: int| 0 <= i < 64 && 0 <= j < 65536 ==> (#[trigger] tables[i][j]) is None,
{
    let mut tables: Vec<Vec<Option<u64>>> = Vec::new();
    let mut i: usize = 0;
    while i < 64
        invariant
            i <= 64,
            tables.len() == i,
            forall|k: int| 0 <= k < i ==> (#[trigger] tables[k]).len() == 65536,
            forall|k: int, j: int| 0 <= k < i && 0 <= j < 65536 ==> (#[trigger] tables[k][j]) is None,
        decreases 64 - i,
    {
        let mut row: Vec<Option<u64>> = Vec::new();
        let mut j: usize = 0;
        while j < 65536
            invariant
                j <= 65536,
                row.len() == j,
                forall|k: int| 0 <= k < j ==> (#[trigger] row[k]) is None,
            decreases 65536 - j,
        {
            row.push(None);
            j += 1;
        }
        tables.push(row);
        i += 1;
    }
    tables
}

/// Builds all attack tables. The magic numbers are searched at random, up to
/// `MAGIC_ATTEMPTS` candidates a square; where that is not enough the error names the
/// square and nothing is built.
pub fn generate_main_hashtables() -> (r: Result<MainHashtables, MagicSearchError>)
    ensures
        r matches Ok(tables) ==> tables.wf(),
        r matches Err(e) ==> e.square < 64,
{
    let mut rook_mask_blockers_hashmaps = empty_magic_tables();
    let rook_moves_masks_magical_numbers = match get_rook_moves_masks_magical_numbers(
        &mut rook_mask_blockers_hashmaps,
    ) {
        Ok(entries) => entries,
        Err(e) => {
            return Err(e);
        },
    };
    let mut bishop_mask_blockers_hashmaps = empty_magic_tables();
    let bishop_moves_masks_magical_numbers = match get_bishop_moves_masks_magical_numbers(
        &mut bishop_mask_blockers_hashmaps,
    ) {
        Ok(entries) => entries,
        Err(e) => {
            return Err(e);
        },
    };
    Ok(
        MainHashtables {
            rook_mask_blockers_hashmaps,
            rook_moves_masks_magical_numbers,
            bishop_mask_blockers_hashmaps,
            bishop_moves_masks_magical_numbers,
            knight_move_masks: get_knight_moves_masks(),
            king_move_masks: get_king_moves_masks(),
            pawn_mask_takes_hashmaps: [get_pawn_takes_masks(false), get_pawn_takes_masks(true)],
            pawn_mask_blockers_hashmaps: [get_pawn_push_masks(false), get_pawn_push_masks(true)],
            pawn_offsets: [get_pawn_offsets(false), get_pawn_offsets(true)],
        },
    )
}

} // verus!
