//! Square-indexed reading of 64-bit board masks.
//!
//! A board mask stores square `s` (row-major, `0` = A1 up to `63` = H8) in bit
//! `63 - s`, so A1 is the most significant bit and H8 the least significant
//! one.  The spec functions here give every mask a per-square meaning, and the
//! lemmas relate the bitwise operators used by the engine to that meaning.

use vstd::prelude::*;
use vstd::std_specs::bits::axiom_u64_leading_zeros;
use vstd::std_specs::bits::u64_leading_zeros;

verus! {

/// The mask holding exactly square `s`.
pub open spec fn mask_of(s: int) -> u64
    recommends
        0 <= s < 64,
{
    1u64 << ((63 - s) as u64)
}

/// True when square `s` is set in the mask `b`.
pub open spec fn sq(b: u64, s: int) -> bool {
    0 <= s < 64 && b & mask_of(s) != 0
}

/// How many of the squares `0 .. s` are set in `b`.
pub open spec fn pop_below(b: u64, s: int) -> nat
    decreases s,
{
    if s <= 0 {
        0
    } else {
        pop_below(b, s - 1) + if sq(b, s - 1) {
            1nat
        } else {
            0nat
        }
    }
}

/// How many squares are set in `b`.
pub open spec fn count_spec(b: u64) -> nat {
    pop_below(b, 64)
}

/// True when exactly one square is set in `b`.
pub open spec fn one_hot(b: u64) -> bool {
    exists|s: int| 0 <= s < 64 && b == mask_of(s)
}

/// A shift of every square by `sh` places: positive amounts move squares
/// toward H8, negative ones toward A1.  Squares pushed past either end of
/// the mask are lost.
pub open spec fn shift_spec(x: u64, sh: int) -> u64
    recommends
        -64 < sh < 64,
{
    if sh >= 0 {
        x >> (sh as u64)
    } else {
        x << ((-sh) as u64)
    }
}

pub broadcast proof fn lemma_sq_and(a: u64, b: u64, s: int)
    ensures
        #[trigger] sq(a & b, s) == (sq(a, s) && sq(b, s)),
{
    if 0 <= s < 64 {
        let i = (63 - s) as u64;
        assert(((a & b) & (1u64 << i) != 0) == (a & (1u64 << i) != 0 && b & (1u64 << i) != 0))
            by (bit_vector)
            requires
                i < 64,
        ;
    }
}

pub broadcast proof fn lemma_sq_or(a: u64, b: u64, s: int)
    ensures
        #[trigger] sq(a | b, s) == (sq(a, s) || sq(b, s)),
{
    if 0 <= s < 64 {
        let i = (63 - s) as u64;
        assert(((a | b) & (1u64 << i) != 0) == (a & (1u64 << i) != 0 || b & (1u64 << i) != 0))
            by (bit_vector)
            requires
                i < 64,
        ;
    }
}

pub broadcast proof fn lemma_sq_xor(a: u64, b: u64, s: int)
    ensures
        #[trigger] sq(a ^ b, s) == (sq(a, s) != sq(b, s)),
{
    if 0 <= s < 64 {
        let i = (63 - s) as u64;
        assert(((a ^ b) & (1u64 << i) != 0) == ((a & (1u64 << i) != 0) != (b & (1u64 << i) != 0)))
            by (bit_vector)
            requires
                i < 64,
        ;
    }
}

pub broadcast proof fn lemma_sq_not(a: u64, s: int)
    requires
        0 <= s < 64,
    ensures
        #[trigger] sq(!a, s) == !sq(a, s),
{
    let i = (63 - s) as u64;
    assert(((!a) & (1u64 << i) != 0) == !(a & (1u64 << i) != 0)) by (bit_vector)
        requires
            i < 64,
    ;
}

pub broadcast proof fn lemma_sq_zero(s: int)
    ensures
        !#[trigger] sq(0u64, s),
{
    if 0 <= s < 64 {
        let i = (63 - s) as u64;
        assert(0u64 & (1u64 << i) == 0) by (bit_vector);
    }
}

pub broadcast proof fn lemma_sq_mask(t: int, s: int)
    requires
        0 <= t < 64,
    ensures
        #[trigger] sq(mask_of(t), s) == (s == t),
{
    if 0 <= s < 64 {
        let i = (63 - s) as u64;
        let j = (63 - t) as u64;
        assert(((1u64 << j) & (1u64 << i) != 0) == (i == j)) by (bit_vector)
            requires
                i < 64,
                j < 64,
        ;
    } else {
        let j = (63 - t) as u64;
        assert(1u64 << j != 0) by (bit_vector)
            requires
                j < 64,
        ;
    }
}

/// A shifted mask holds square `s` exactly when the unshifted mask holds the
/// square `sh` places back, and that square did not fall off the mask.  File
/// wrap-around is deliberately left visible: a shift by one can carry a
/// square from the end of one row to the start of the next.
pub proof fn lemma_sq_shift(x: u64, sh: int, s: int)
    requires
        -64 < sh < 64,
        0 <= s < 64,
    ensures
        sq(shift_spec(x, sh), s) == (0 <= s - sh < 64 && sq(x, s - sh)),
{
    let i = (63 - s) as u64;
    if sh >= 0 {
        let n = sh as u64;
        if s - sh >= 0 {
            let j = (63 - (s - sh)) as u64;
            assert(((x >> n) & (1u64 << i) != 0) == (x & (1u64 << j) != 0)) by (bit_vector)
                requires
                    i < 64,
                    n < 64,
                    j < 64,
                    j == i + n,
            ;
        } else {
            assert((x >> n) & (1u64 << i) == 0) by (bit_vector)
                requires
                    i < 64,
                    n < 64,
                    i + n > 63,
            ;
        }
    } else {
        let m = (-sh) as u64;
        if s - sh < 64 {
            let j = (63 - (s - sh)) as u64;
            assert(((x << m) & (1u64 << i) != 0) == (x & (1u64 << j) != 0)) by (bit_vector)
                requires
                    i < 64,
                    0 < m < 64,
                    j < 64,
                    i == j + m,
            ;
        } else {
            assert((x << m) & (1u64 << i) == 0) by (bit_vector)
                requires
                    i < 64,
                    0 < m < 64,
                    i < m,
            ;
        }
    }
}

/// A nonzero mask holds its leading square: the one named by the number of
/// leading zeros.
pub proof fn lemma_nonzero_has_sq(c: u64)
    requires
        c != 0,
    ensures
        0 <= u64_leading_zeros(c) < 64,
        sq(c, u64_leading_zeros(c)),
{
    axiom_u64_leading_zeros(c);
    let s = u64_leading_zeros(c);
    let i = (63 - s) as u64;
    assert((c >> i) & 1u64 != 0u64 ==> c & (1u64 << i) != 0) by (bit_vector)
        requires
            i < 64,
    ;
}

/// Masks that agree on every square are equal.
pub proof fn lemma_sq_ext(a: u64, b: u64)
    requires
        forall|s: int| 0 <= s < 64 ==> sq(a, s) == sq(b, s),
    ensures
        a == b,
{
    if a != b {
        let c = a ^ b;
        assert(c != 0) by (bit_vector)
            requires
                c == a ^ b,
                a != b,
        ;
        lemma_nonzero_has_sq(c);
        let s = u64_leading_zeros(c);
        lemma_sq_xor(a, b, s);
    }
}

/// A one-hot mask is the mask of its leading square.
pub proof fn lemma_one_hot_index(b: u64)
    requires
        one_hot(b),
    ensures
        0 <= u64_leading_zeros(b) < 64,
        b == mask_of(u64_leading_zeros(b)),
        forall|s: int| sq(b, s) == (s == u64_leading_zeros(b)),
{
    let t = choose|t: int| 0 <= t < 64 && b == mask_of(t);
    assert forall|s: int| sq(b, s) == (s == t) by {
        lemma_sq_mask(t, s);
    }
    let j = (63 - t) as u64;
    assert(1u64 << j != 0) by (bit_vector)
        requires
            j < 64,
    ;
    lemma_nonzero_has_sq(b);
    assert(u64_leading_zeros(b) == t);
}

/// A one-hot mask counts to exactly one, and conversely.
pub proof fn lemma_one_hot_count(b: u64)
    ensures
        one_hot(b) == (count_spec(b) == 1),
{
    if one_hot(b) {
        lemma_one_hot_index(b);
        let t = u64_leading_zeros(b);
        lemma_pop_one_hot(b, t, 64);
    }
    if count_spec(b) == 1 {
        let s = lemma_pop_some(b, 64);
        assert forall|t: int| 0 <= t < 64 && t != s implies !sq(b, t) by {
            if sq(b, t) {
                if t < s {
                    lemma_pop_pair(b, t, s, 64);
                } else {
                    lemma_pop_pair(b, s, t, 64);
                }
            }
        }
        assert forall|t: int| 0 <= t < 64 implies sq(b, t) == sq(mask_of(s), t) by {
            lemma_sq_mask(s, t);
        }
        lemma_sq_ext(b, mask_of(s));
    }
}

/// A mask whose only square is `t` counts to one past `t` and stays there.
proof fn lemma_pop_one_hot(b: u64, t: int, s: int)
    requires
        0 <= t < 64,
        0 <= s <= 64,
        forall|u: int| sq(b, u) == (u == t),
    ensures
        pop_below(b, s) == if t < s {
            1nat
        } else {
            0nat
        },
    decreases s,
{
    if s > 0 {
        lemma_pop_one_hot(b, t, s - 1);
    }
}

/// A positive count names a set square.
proof fn lemma_pop_some(b: u64, s: int) -> (t: int)
    requires
        0 <= s <= 64,
        pop_below(b, s) >= 1,
    ensures
        0 <= t < s,
        sq(b, t),
    decreases s,
{
    if sq(b, s - 1) {
        s - 1
    } else {
        lemma_pop_some(b, s - 1)
    }
}

/// Two distinct set squares force a count of at least two.
proof fn lemma_pop_pair(b: u64, t1: int, t2: int, s: int)
    requires
        0 <= t1 < t2 < s <= 64,
        sq(b, t1),
        sq(b, t2),
    ensures
        pop_below(b, s) >= 2,
    decreases s,
{
    if t2 == s - 1 {
        lemma_pop_one(b, t1, s - 1);
    } else {
        lemma_pop_pair(b, t1, t2, s - 1);
    }
}

/// One set square forces a count of at least one.
proof fn lemma_pop_one(b: u64, t: int, s: int)
    requires
        0 <= t < s <= 64,
        sq(b, t),
    ensures
        pop_below(b, s) >= 1,
    decreases s,
{
    if t < s - 1 {
        lemma_pop_one(b, t, s - 1);
    }
}

/// A square is set in a mask or in its complement, never in both.
pub proof fn lemma_pop_complement(b: u64, s: int)
    requires
        0 <= s <= 64,
    ensures
        pop_below(b, s) + pop_below(!b, s) == s,
    decreases s,
{
    if s > 0 {
        lemma_pop_complement(b, s - 1);
        lemma_sq_not(b, s - 1);
    }
}

/// The set squares of `b` from square `s` on, in board order, each as the
/// mask holding just that square.
pub open spec fn hot_seq(b: u64, s: int) -> Seq<u64>
    decreases 64 - s,
{
    if s < 0 || s >= 64 {
        Seq::empty()
    } else if sq(b, s) {
        seq![mask_of(s)] + hot_seq(b, s + 1)
    } else {
        hot_seq(b, s + 1)
    }
}

/// The squares listed from `s` on are the set squares not counted below `s`.
pub proof fn lemma_hot_seq_len(b: u64, s: int)
    requires
        0 <= s <= 64,
    ensures
        hot_seq(b, s).len() + pop_below(b, s) == count_spec(b),
    decreases 64 - s,
{
    if s < 64 {
        lemma_hot_seq_len(b, s + 1);
    }
}

} // verus!
