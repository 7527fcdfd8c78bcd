use vstd::prelude::*;
use vstd::std_specs::bits::axiom_u64_trailing_zeros;

verus! {

/// Whether square `i` belongs to the bitboard `b`: bit `i` of `b`, counted from the least
/// significant bit, is set. Squares outside `0..64` belong to no bitboard.
pub open spec fn bit(b: u64, i: int) -> bool {
    0 <= i < 64 && has_bit(b, i as u64)
}

/// Bit `i` of `b` for a bit position that is already a machine integer.
pub open spec fn has_bit(b: u64, i: u64) -> bool {
    (b >> i) & 1 == 1
}

/// The bitboard that holds the single square `u`.
pub open spec fn single(u: int) -> u64 {
    1u64 << (u as u64)
}

/// How membership behaves under the bitwise operators.
pub proof fn lemma_bit_ops()
    by (bit_vector)
    ensures
        forall|a: u64, b: u64, i: u64|
            i < 64 ==> #[trigger] has_bit(a | b, i) == (has_bit(a, i) || has_bit(b, i)),
        forall|a: u64, b: u64, i: u64|
            i < 64 ==> #[trigger] has_bit(a & b, i) == (has_bit(a, i) && has_bit(b, i)),
        forall|a: u64, b: u64, i: u64|
            i < 64 ==> #[trigger] has_bit(a ^ b, i) == (has_bit(a, i) != has_bit(b, i)),
        forall|a: u64, i: u64| i < 64 ==> #[trigger] has_bit(!a, i) == !has_bit(a, i),
        forall|j: u64, i: u64| i < 64 && j < 64 ==> #[trigger] has_bit(1u64 << j, i) == (i == j),
        forall|i: u64| i < 64 ==> !#[trigger] has_bit(0u64, i),
{
}

/// Two bitboards with the same squares are the same integer.
pub proof fn lemma_bit_ext(a: u64, b: u64)
    requires
        forall|i: int| 0 <= i < 64 ==> bit(a, i) == bit(b, i),
    ensures
        a == b,
{
    if a != b {
        let x = a ^ b;
        assert(x != 0) by (bit_vector)
            requires
                x == a ^ b,
                a != b,
        ;
        axiom_u64_trailing_zeros(x);
        let t = x.trailing_zeros();
        assert(t < 64);
        lemma_bit_ops();
        assert(has_bit(x, t as u64));
        assert(bit(a, t as int) == bit(b, t as int));
    }
}

/// A bitboard with a square in it is not empty, and the other way round.
pub proof fn lemma_nonzero_has_square(b: u64)
    ensures
        b != 0 <==> exists|t: int| bit(b, t),
{
    lemma_bit_sets(0, 0);
    if b != 0 {
        if forall|t: int| !bit(b, t) {
            lemma_bit_ext(b, 0);
        }
    }
}

/// The bitboard that holds exactly the squares below `n` for which `p` holds.
pub open spec fn board_upto(p: spec_fn(int) -> bool, n: nat) -> u64
    decreases n,
{
    if n == 0 {
        0
    } else {
        let rest = board_upto(p, (n - 1) as nat);
        if p(n - 1) {
            rest | (1u64 << ((n - 1) as u64))
        } else {
            rest
        }
    }
}

/// The bitboard that holds exactly the squares of the board for which `p` holds.
pub open spec fn board_of(p: spec_fn(int) -> bool) -> u64 {
    board_upto(p, 64)
}

/// `board_upto(p, n)` holds a square exactly when it is below `n` and `p` holds of it.
pub proof fn lemma_board_upto(p: spec_fn(int) -> bool, n: nat)
    requires
        n <= 64,
    ensures
        forall|t: int| bit(board_upto(p, n), t) == (0 <= t < n && p(t)),
    decreases n,
{
    lemma_bit_ops();
    if n > 0 {
        lemma_board_upto(p, (n - 1) as nat);
        let rest = board_upto(p, (n - 1) as nat);
        let m = (n - 1) as u64;
        assert forall|t: int| bit(board_upto(p, n), t) == (0 <= t < n && p(t)) by {
            if 0 <= t < 64 {
                assert(bit(rest, t) == (t < n - 1 && p(t)));
                assert(has_bit(1u64 << m, t as u64) == (t as u64 == m));
                assert(has_bit(rest | (1u64 << m), t as u64) == (has_bit(rest, t as u64) || has_bit(
                    1u64 << m,
                    t as u64,
                )));
            }
        }
    }
}

/// `board_of(p)` holds a square exactly when the square is on the board and `p` holds of it.
pub proof fn lemma_board_of(p: spec_fn(int) -> bool)
    ensures
        forall|t: int| bit(board_of(p), t) == (0 <= t < 64 && p(t)),
{
    lemma_board_upto(p, 64);
}

/// A bitboard whose squares are those of `p` is `board_of(p)`.
pub proof fn lemma_board_of_is(p: spec_fn(int) -> bool, b: u64)
    requires
        forall|t: int| 0 <= t < 64 ==> bit(b, t) == p(t),
    ensures
        b == board_of(p),
{
    lemma_board_of(p);
    lemma_bit_ext(b, board_of(p));
}

/// Union, intersection, symmetric difference and complement of bitboards, square by square.
pub proof fn lemma_bit_sets(a: u64, b: u64)
    ensures
        forall|t: int| #[trigger] bit(a | b, t) == (bit(a, t) || bit(b, t)),
        forall|t: int| #[trigger] bit(a & b, t) == (bit(a, t) && bit(b, t)),
        forall|t: int| #[trigger] bit(a ^ b, t) == (bit(a, t) != bit(b, t)),
        forall|t: int| 0 <= t < 64 ==> #[trigger] bit(!a, t) == !bit(a, t),
        forall|t: int| !#[trigger] bit(0, t),
{
    lemma_bit_ops();
    assert forall|t: int| bit(a | b, t) == (bit(a, t) || bit(b, t)) by {
        if 0 <= t < 64 {
            assert(has_bit(a | b, t as u64) == (has_bit(a, t as u64) || has_bit(b, t as u64)));
        }
    }
    assert forall|t: int| bit(a & b, t) == (bit(a, t) && bit(b, t)) by {
        if 0 <= t < 64 {
            assert(has_bit(a & b, t as u64) == (has_bit(a, t as u64) && has_bit(b, t as u64)));
        }
    }
    assert forall|t: int| bit(a ^ b, t) == (bit(a, t) != bit(b, t)) by {
        if 0 <= t < 64 {
            assert(has_bit(a ^ b, t as u64) == (has_bit(a, t as u64) != has_bit(b, t as u64)));
        }
    }
    assert forall|t: int| 0 <= t < 64 implies bit(!a, t) == !bit(a, t) by {
        assert(has_bit(!a, t as u64) == !has_bit(a, t as u64));
    }
    assert forall|t: int| !bit(0, t) by {
        if 0 <= t < 64 {
            assert(!has_bit(0u64, t as u64));
        }
    }
}

/// The bitboard `b` with the square `sq` added.
pub fn with_square(b: u64, sq: usize) -> (r: u64)
    requires
        sq < 64,
    ensures
        r == b | single(sq as int),
        forall|t: int| bit(r, t) == (bit(b, t) || t == sq),
{
    let one = square_bit(sq);
    proof {
        lemma_bit_sets(b, one);
    }
    b | one
}

/// The bitboard that holds the single square `sq`.
pub fn square_bit(sq: usize) -> (b: u64)
    requires
        sq < 64,
    ensures
        b == single(sq as int),
        forall|t: int| bit(b, t) == (t == sq),
{
    proof {
        lemma_bit_ops();
    }
    let b = 1u64 << (sq as u64);
    assert forall|t: int| bit(b, t) == (t == sq) by {
        if 0 <= t < 64 {
            assert(has_bit(1u64 << (sq as u64), t as u64) == (t as u64 == sq as u64));
        }
    }
    b
}

/// Whether square `sq` belongs to `b`.
pub fn test_bit(b: u64, sq: usize) -> (r: bool)
    requires
        sq < 64,
    ensures
        r == bit(b, sq as int),
{
    (b >> (sq as u64)) & 1 == 1
}

/// Taking a square out of a bitboard makes the integer smaller.
proof fn lemma_clear_bit_smaller(b: u64, i: u64)
    by (bit_vector)
    requires
        i < 64,
        (b >> i) & 1 == 1,
    ensures
        b ^ (1u64 << i) < b,
{
}

/// The lowest square of a bitboard that is not empty.
pub fn lowest_square(b: u64) -> (i: usize)
    requires
        b != 0,
    ensures
        i < 64,
        bit(b, i as int),
        forall|t: int| 0 <= t < i ==> !bit(b, t),
{
    proof {
        axiom_u64_trailing_zeros(b);
        assert forall|t: int| 0 <= t < b.trailing_zeros() implies !bit(b, t) by {
            assert((b >> (t as u64)) & 1u64 == 0u64);
        }
    }
    b.trailing_zeros() as usize
}

/// The bitboard `b` with its square `sq` taken out.
pub fn without_square(b: u64, sq: usize) -> (r: u64)
    requires
        sq < 64,
        bit(b, sq as int),
    ensures
        r == b ^ single(sq as int),
        forall|t: int| bit(r, t) == (bit(b, t) && t != sq),
        r < b,
{
    let one = square_bit(sq);
    proof {
        lemma_bit_sets(b, one);
        lemma_clear_bit_smaller(b, sq as u64);
    }
    b ^ one
}

/// The bitboard `b` without the square `sq`, whether or not it held it.
pub fn cleared(b: u64, sq: usize) -> (r: u64)
    requires
        sq < 64,
    ensures
        r == b & !single(sq as int),
        forall|t: int| bit(r, t) == (bit(b, t) && t != sq),
{
    let one = square_bit(sq);
    proof {
        lemma_bit_sets(b, !one);
        lemma_bit_sets(one, 0);
    }
    b & !one
}

} // verus!
