use vstd::prelude::*;
use crate::bits::{bit, lemma_bit_sets, lemma_board_of, lemma_board_of_is};
use crate::geometry::{
    between, bishop_attack, bishop_attacks, bishop_line, bishop_mask, bishop_relevant, rook_attack,
    rook_attacks, rook_line, rook_mask, rook_relevant,
};
use crate::binary_mask::{get_bishop_moves_masks_collision, get_rook_moves_masks_collision};

verus! {

/// Every square of `b` is a square of `mask`.
pub open spec fn is_subset(b: u64, mask: u64) -> bool {
    b & !mask == 0
}

/// The slot of a magic table that the blockers `b` hash to under `magic`: the top sixteen
/// bits of their product.
pub open spec fn magic_index(b: u64, magic: u64) -> int {
    (b.wrapping_mul(magic) >> 48) as int
}

/// The relevance mask of a rook, or of a bishop where `diagonal` is set.
pub open spec fn slider_mask(diagonal: bool, s: int) -> u64 {
    if diagonal {
        bishop_mask(s)
    } else {
        rook_mask(s)
    }
}

/// The attack set of a rook, or of a bishop where `diagonal` is set.
pub open spec fn slider_attacks(diagonal: bool, s: int, occ: u64) -> u64 {
    if diagonal {
        bishop_attacks(s, occ)
    } else {
        rook_attacks(s, occ)
    }
}

/// `magic` is a magic number for the square: two sets of relevant blockers share a slot
/// only where the piece attacks the same squares under both.
pub open spec fn magic_fits(diagonal: bool, s: int, magic: u64) -> bool {
    forall|b1: u64, b2: u64|
        is_subset(b1, slider_mask(diagonal, s)) && is_subset(b2, slider_mask(diagonal, s))
            && magic_index(b1, magic) == magic_index(b2, magic) ==> slider_attacks(
            diagonal,
            s,
            b1,
        ) == slider_attacks(diagonal, s, b2)
}

/// Every filled slot of the table is one that some set of relevant blockers hashes to
/// under `magic`: the table holds nothing that a rejected candidate left behind.
pub open spec fn only_hashed(diagonal: bool, s: int, magic: u64, table: Seq<Option<u64>>) -> bool {
    forall|i: int|
        0 <= i < table.len() && (#[trigger] table[i]) is Some ==> exists|b: u64|
            is_subset(b, slider_mask(diagonal, s)) && #[trigger] magic_index(b, magic) == i
}

/// The table answers every set of relevant blockers with the attack set under it, and
/// is empty in every slot that no such set hashes to.
pub open spec fn table_filled(diagonal: bool, s: int, magic: u64, table: Seq<Option<u64>>) -> bool {
    &&& table.len() == 65536
    &&& forall|b: u64|
        is_subset(b, slider_mask(diagonal, s)) ==> table[#[trigger] magic_index(b, magic)] == Some(
            slider_attacks(diagonal, s, b),
        )
    &&& only_hashed(diagonal, s, magic, table)
}

/// In a filled table every slot is empty or holds the attack set under a set of relevant
/// blockers that hashes to it.
pub proof fn lemma_filled_slots(diagonal: bool, s: int, magic: u64, table: Seq<Option<u64>>, i: int)
    requires
        table_filled(diagonal, s, magic, table),
        0 <= i < 65536,
        table[i] is Some,
    ensures
        exists|b: u64|
            is_subset(b, slider_mask(diagonal, s)) && #[trigger] magic_index(b, magic) == i
                && table[i] == Some(slider_attacks(diagonal, s, b)),
{
    let b = choose|b: u64|
        is_subset(b, slider_mask(diagonal, s)) && #[trigger] magic_index(b, magic) == i;
    assert(table[magic_index(b, magic)] == Some(slider_attacks(diagonal, s, b)));
}

/// Blockers outside the relevance mask do not change what a slider attacks.
pub proof fn lemma_relevant_blockers(diagonal: bool, s: int, occ: u64)
    requires
        0 <= s < 64,
    ensures
        is_subset(occ & slider_mask(diagonal, s), slider_mask(diagonal, s)),
        slider_attacks(diagonal, s, occ & slider_mask(diagonal, s)) == slider_attacks(
            diagonal,
            s,
            occ,
        ),
{
    let mask = slider_mask(diagonal, s);
    let cut = occ & mask;
    lemma_bit_sets(occ, mask);
    assert(cut & !mask == 0) by (bit_vector)
        requires
            cut == occ & mask,
    ;
    if diagonal {
        lemma_board_of(|t: int| bishop_relevant(s, t));
        lemma_board_of(|t: int| bishop_attack(s, t, occ));
        assert forall|t: int| 0 <= t < 64 implies bit(bishop_attacks(s, occ), t) == bishop_attack(
            s,
            t,
            cut,
        ) by {
            if bishop_line(s, t) {
                assert forall|u: int| between(s, t, u) implies bit(cut, u) == bit(occ, u) by {
                    assert(bishop_relevant(s, u));
                }
            }
        }
        lemma_board_of_is(|t: int| bishop_attack(s, t, cut), bishop_attacks(s, occ));
    } else {
        lemma_board_of(|t: int| rook_relevant(s, t));
        lemma_board_of(|t: int| rook_attack(s, t, occ));
        assert forall|t: int| 0 <= t < 64 implies bit(rook_attacks(s, occ), t) == rook_attack(
            s,
            t,
            cut,
        ) by {
            if rook_line(s, t) {
                assert forall|u: int| between(s, t, u) implies bit(cut, u) == bit(occ, u) by {
                    assert(rook_relevant(s, u));
                }
            }
        }
        lemma_board_of_is(|t: int| rook_attack(s, t, cut), rook_attacks(s, occ));
    }
}

/// The subsets of `mask` in rising order: after `sub` comes `((sub | !mask) + 1) & mask`,
/// and no subset `x` lies between the two.
proof fn lemma_next_subset(sub: u64, mask: u64, x: u64)
    by (bit_vector)
    requires
        sub & !mask == 0,
        sub != mask,
    ensures
        sub < mask,
        (sub | !mask) < 0xffff_ffff_ffff_ffffu64,
        ((((sub | !mask) + 1) as u64) & mask) & !mask == 0,
        (((sub | !mask) + 1) as u64) & mask > sub,
        x & !mask == 0 && x > sub ==> x >= (((sub | !mask) + 1) as u64) & mask,
{
}

/// A subset of `mask` is no greater than `mask`, and the empty set is a subset.
proof fn lemma_subset_bounds(x: u64, mask: u64)
    by (bit_vector)
    ensures
        x & !mask == 0 ==> x <= mask,
        0u64 & !mask == 0,
{
}

/// The top sixteen bits of a product index a table of 65536 slots.
pub proof fn lemma_index_bound(product: u64)
    by (bit_vector)
    ensures
        (product >> 48) < 65536,
{
}

/// What a slider on `sq` attacks under the blockers `occ`.
fn slider_collision(diagonal: bool, sq: usize, occ: u64) -> (a: u64)
    requires
        sq < 64,
    ensures
        a == slider_attacks(diagonal, sq as int, occ),
{
    if diagonal {
        get_bishop_moves_masks_collision(sq, &occ)
    } else {
        get_rook_moves_masks_collision(sq, &occ)
    }
}

/// Empties every slot of the table.
fn clear_table(table: &mut Vec<Option<u64>>)
    ensures
        final(table).len() == old(table).len(),
        forall|i: int| 0 <= i < final(table).len() ==> final(table)[i] is None,
{
    let n = table.len();
    let mut i: usize = 0;
    while i < n
        invariant
            i <= n,
            table.len() == n,
            forall|j: int| 0 <= j < i ==> table[j] is None,
        decreases n - i,
    {
        table[i] = None;
        i += 1;
    }
}

/// Tries `magic` as the magic number of the square `sq`: empties `table`, then enters the
/// attack set of every set of relevant blockers at the slot it hashes to, and gives up at
/// the first slot that two sets with different attack sets would share. Where the number
/// fits, the table holds those attack sets and nothing else.
pub fn try_magic(
    diagonal: bool,
    sq: usize,
    mask: u64,
    magic: u64,
    table: &mut Vec<Option<u64>>,
) -> (ok: bool)
    requires
        sq < 64,
        mask == slider_mask(diagonal, sq as int),
        old(table).len() == 65536,
    ensures
        final(table).len() == 65536,
        ok == magic_fits(diagonal, sq as int, magic),
        ok ==> table_filled(diagonal, sq as int, magic, final(table)@),
{
    clear_table(table);
    let ghost s = sq as int;
    let ghost mut wit: Seq<u64> = Seq::new(65536, |i: int| 0u64);
    let mut sub: u64 = 0;
    let mut done = false;
    let mut ok = true;
    proof {
        lemma_subset_bounds(0, mask);
    }
    while !done
        invariant
            sq < 64,
            s == sq as int,
            mask == slider_mask(diagonal, s),
            table.len() == 65536,
            wit.len() == 65536,
            is_subset(sub, mask),
            done ==> (sub == mask || !ok),
            ok || done,
            ok ==> forall|x: u64|
                is_subset(x, mask) && (x < sub || done) ==> table[#[trigger] magic_index(x, magic)]
                    == Some(slider_attacks(diagonal, s, x)),
            ok ==> forall|i: int|
                0 <= i < 65536 && table[i] is Some ==> is_subset(#[trigger] wit[i], mask)
                    && magic_index(wit[i], magic) == i && (wit[i] < sub || done),
            !ok ==> !magic_fits(diagonal, s, magic),
        decreases
                (if done {
                    0int
                } else {
                    1int
                }),
                mask - sub,
    {
        let ix: usize = (sub.wrapping_mul(magic) >> 48) as usize;
        proof {
            lemma_index_bound(sub.wrapping_mul(magic));
        }
        assert(ix as int == magic_index(sub, magic));
        let a = slider_collision(diagonal, sq, sub);
        let clash = match table[ix] {
            Some(v) => v != a,
            None => false,
        };
        if clash {
            proof {
                let w = wit[ix as int];
                assert(table[ix as int] is Some);
                assert(is_subset(w, mask) && magic_index(w, magic) == ix);
                assert(w < sub);
                assert(table[magic_index(w, magic)] == Some(slider_attacks(diagonal, s, w)));
            }
            ok = false;
            done = true;
        } else {
            let ghost before = table@;
            table[ix] = Some(a);
            proof {
                wit = wit.update(ix as int, sub);
                assert forall|x: u64| is_subset(x, mask) && x <= sub implies table[#[trigger] magic_index(
                    x,
                    magic,
                )] == Some(slider_attacks(diagonal, s, x)) by {
                    lemma_index_bound(x.wrapping_mul(magic));
                    if x < sub {
                        assert(before[magic_index(x, magic)] == Some(
                            slider_attacks(diagonal, s, x),
                        ));
                    }
                }
            }
            if sub == mask {
                done = true;
                proof {
                    assert forall|x: u64| is_subset(x, mask) implies x <= sub by {
                        lemma_subset_bounds(x, mask);
                    }
                }
            } else {
                proof {
                    lemma_next_subset(sub, mask, 0);
                    assert forall|x: u64|
                        is_subset(x, mask) && x < (((sub | !mask) + 1) as u64) & mask implies x
                        <= sub by {
                        lemma_next_subset(sub, mask, x);
                    }
                    lemma_subset_bounds((((sub | !mask) + 1) as u64) & mask, mask);
                }
                sub = ((sub | !mask) + 1) & mask;
            }
        }
    }
    proof {
        if ok {
            assert forall|i: int| 0 <= i < 65536 && (#[trigger] table@[i]) is Some implies exists|
                b: u64,
            | is_subset(b, mask) && #[trigger] magic_index(b, magic) == i by {
                let w = wit[i];
                assert(is_subset(w, mask) && magic_index(w, magic) == i);
            }
            assert(only_hashed(diagonal, s, magic, table@));
        }
    }
    ok
}

/// One 64-bit draw from the thread-local generator of `rand`, through
/// `rand::random_range` over the whole range of `u64`. Nothing is claimed of the value.
#[verifier::external_body]
fn random_u64() -> (r: u64) {
    rand::random_range(0..=u64::MAX)
}

/// The candidate magic number that three draws make: their bitwise AND, which favours
/// sparse values.
pub fn sparse_candidate(a: u64, b: u64, c: u64) -> (r: u64)
    ensures
        r == a & b & c,
{
    a & b & c
}

/// A candidate magic number from three fresh draws.
fn draw_candidate() -> (r: u64) {
    let a = random_u64();
    let b = random_u64();
    let c = random_u64();
    sparse_candidate(a, b, c)
}

/// Draws up to `attempts` candidates for the square `sq` and returns the first that is a
/// magic number for it, with `table` filled for that number and empty in every slot that
/// the number leaves unused: what rejected candidates entered is gone.
pub fn find_magic(
    diagonal: bool,
    sq: usize,
    mask: u64,
    attempts: u32,
    table: &mut Vec<Option<u64>>,
) -> (r: Option<u64>)
    requires
        sq < 64,
        mask == slider_mask(diagonal, sq as int),
        old(table).len() == 65536,
    ensures
        final(table).len() == 65536,
        attempts == 0 ==> r is None,
        r matches Some(magic) ==> magic_fits(diagonal, sq as int, magic) && table_filled(
            diagonal,
            sq as int,
            magic,
            final(table)@,
        ),
{
    let mut left = attempts;
    while left > 0
        invariant
            sq < 64,
            mask == slider_mask(diagonal, sq as int),
            table.len() == 65536,
            left <= attempts,
        decreases left,
    {
        let magic = draw_candidate();
        if try_magic(diagonal, sq, mask, magic, table) {
            return Some(magic);
        }
        left -= 1;
    }
    None
}

} // verus!
