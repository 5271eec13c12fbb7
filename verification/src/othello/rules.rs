//! The directional capture rules of Othello, stated square by square.
//!
//! A move is legal when it sits on an empty square and, in at least one of
//! the eight compass directions, a straight line of the opponent's stones
//! runs from the move to one of the mover's own stones.  The spec functions
//! here say exactly that, over the raw masks of the two sides, and the
//! lemmas tie the engine's shift-based flood fills to them.

use super::bits::lemma_nonzero_has_sq;
use super::bits::lemma_one_hot_index;
use super::bits::lemma_sq_and;
use super::bits::lemma_sq_ext;
use super::bits::lemma_sq_mask;
use super::bits::lemma_sq_or;
use super::bits::lemma_sq_shift;
use super::bits::lemma_sq_zero;
use super::bits::mask_of;
use super::bits::one_hot;
use super::bits::shift_spec;
use super::bits::sq;
use crate::direction::Direction;
use vstd::prelude::*;
use vstd::std_specs::bits::u64_leading_zeros;

verus! {

/// The squares of file A, the left edge of the board.
pub const FILE_A: u64 = 0x8080_8080_8080_8080;

/// The squares of file H, the right edge of the board.
pub const FILE_H: u64 = 0x0101_0101_0101_0101;

/// The change in square number for one step in direction `d`, where the
/// directions are numbered N, NE, E, SE, S, SW, W, NW.
pub open spec fn delta(d: int) -> int {
    if d == 0 {
        -8
    } else if d == 1 {
        -7
    } else if d == 2 {
        1
    } else if d == 3 {
        9
    } else if d == 4 {
        8
    } else if d == 5 {
        7
    } else if d == 6 {
        -1
    } else {
        -9
    }
}

/// The change in rank for one step in direction `d`.
pub open spec fn dir_dr(d: int) -> int {
    if d == 0 || d == 1 || d == 7 {
        -1
    } else if d == 2 || d == 6 {
        0
    } else {
        1
    }
}

/// The change in file for one step in direction `d`.
pub open spec fn dir_df(d: int) -> int {
    if d == 1 || d == 2 || d == 3 {
        1
    } else if d == 0 || d == 4 {
        0
    } else {
        -1
    }
}

/// The rank of square `s`, counted from zero at rank 1.
pub open spec fn rank_of(s: int) -> int {
    s / 8
}

/// The file of square `s`, counted from zero at file A.
pub open spec fn file_of(s: int) -> int {
    s % 8
}

/// The square reached after `j` steps from `s` in direction `d`, counted
/// blindly: whether each step stays on the board is a separate question.
pub open spec fn step_to(s: int, d: int, j: int) -> int {
    s + j * delta(d)
}

/// One step from `u` in direction `d` stays on the board: both squares
/// exist, and the files really are one step apart, so the step does not
/// wrap around an edge.
pub open spec fn step_ok(u: int, d: int) -> bool {
    &&& 0 <= u < 64
    &&& 0 <= u + delta(d) < 64
    &&& file_of(u + delta(d)) == file_of(u) + dir_df(d)
}

/// The first `n` steps from `s` in direction `d` all stay on the board.
pub open spec fn line_ok(s: int, d: int, n: int) -> bool {
    &&& 0 <= s < 64
    &&& 0 <= rank_of(s) + n * dir_dr(d) < 8
    &&& 0 <= file_of(s) + n * dir_df(d) < 8
}

/// Moving every stone of `x` one square along direction `d`.  Stones that
/// would leave the board, or wrap around its left or right edge, disappear.
pub open spec fn dir_shift_spec(x: u64, d: int) -> u64 {
    if d == 0 || d == 4 {
        shift_spec(x, delta(d))
    } else if d == 1 || d == 2 || d == 3 {
        shift_spec(x, delta(d)) & !FILE_A
    } else {
        shift_spec(x, delta(d)) & !FILE_H
    }
}

/// Placing a stone of the side holding `own` on square `s` captures exactly
/// `k` stones of the side holding `opp` in direction `d`: the `k` squares
/// after `s` along `d` all hold the opponent, and the next one holds the
/// mover.
pub open spec fn captures_k(own: u64, opp: u64, s: int, d: int, k: int) -> bool {
    &&& k >= 1
    &&& line_ok(s, d, k + 1)
    &&& (forall|j: int| 1 <= j <= k ==> sq(opp, #[trigger] step_to(s, d, j)))
    &&& sq(own, step_to(s, d, k + 1))
}

/// Direction `d` captures at least one stone when `s` is played by the side
/// holding `own` against the side holding `opp`.
pub open spec fn captures(own: u64, opp: u64, s: int, d: int) -> bool {
    exists|k: int| captures_k(own, opp, s, d, k)
}

/// Square `s` is a legal move for the side holding `own` against the side
/// holding `opp`: it is empty and captures in some direction.
pub open spec fn is_legal(own: u64, opp: u64, s: int) -> bool {
    &&& 0 <= s < 64
    &&& !sq(own, s)
    &&& !sq(opp, s)
    &&& exists|d: int| 0 <= d < 8 && #[trigger] captures(own, opp, s, d)
}

/// Square `t` is flipped when square `s` is played by the side holding
/// `own`, through one of the directions numbered below `dlim`.
pub open spec fn flips_via(own: u64, opp: u64, s: int, t: int, dlim: int) -> bool {
    exists|d: int| 0 <= d < dlim && #[trigger] dir_flip_sq(own, opp, s, d, t)
}

/// Square `t` is flipped when square `s` is played by the side holding
/// `own` against the side holding `opp`.
pub open spec fn flips(own: u64, opp: u64, s: int, t: int) -> bool {
    flips_via(own, opp, s, t, 8)
}

/// The direction pointing the opposite way from `d`.
pub open spec fn opposite(d: int) -> int {
    if d < 4 {
        d + 4
    } else {
        d - 4
    }
}

/// Square `u` holds the opponent and starts a straight run of `i` opposing
/// stones, read along direction `d`, that ends on one of the mover's own
/// stones.
pub open spec fn run_to_own(own: u64, opp: u64, d: int, u: int, i: int) -> bool {
    &&& i >= 1
    &&& line_ok(u, d, i)
    &&& (forall|j: int| 0 <= j < i ==> sq(opp, #[trigger] step_to(u, d, j)))
    &&& sq(own, step_to(u, d, i))
}

/// Square `t` is among the stones direction `d` flips when `s` is played.
pub open spec fn dir_flip_sq(own: u64, opp: u64, s: int, d: int, t: int) -> bool {
    exists|k: int, j: int|
        {
            &&& #[trigger] captures_k(own, opp, s, d, k)
            &&& 1 <= j <= k
            &&& t == #[trigger] step_to(s, d, j)
        }
}

/// Every square of the shifted mask comes from a stone one genuine board
/// step back along the direction.
pub proof fn lemma_dir_shift_sq(x: u64, d: int, t: int)
    requires
        0 <= d < 8,
    ensures
        sq(dir_shift_spec(x, d), t) == (step_ok(t - delta(d), d) && sq(x, t - delta(d))),
{
    let u = t - delta(d);
    if 0 <= t < 64 {
        lemma_sq_shift(x, delta(d), t);
        if d == 0 || d == 4 {
            if 0 <= u < 64 {
                assert(file_of(u + delta(d)) == file_of(u)) by {
                    assert(t == u + delta(d));
                    assert(t % 8 == u % 8);
                }
            }
        } else {
            lemma_sq_and(shift_spec(x, delta(d)), if d <= 3 {
                !FILE_A
            } else {
                !FILE_H
            }, t);
            lemma_file_mask(t);
            if 0 <= u < 64 {
                if dir_df(d) == 1 {
                    assert((file_of(t) != 0) == (file_of(t) == file_of(u) + 1)) by {
                        assert(t % 8 == (u + 1) % 8);
                    }
                } else {
                    assert((file_of(t) != 7) == (file_of(t) == file_of(u) - 1)) by {
                        assert(t % 8 == (u + 7) % 8);
                    }
                }
            }
        }
    } else {
        assert(!sq(dir_shift_spec(x, d), t));
        assert(!(0 <= u + delta(d) < 64));
    }
}

/// The file-edge masks read exactly the squares off the named file.
proof fn lemma_file_mask(t: int)
    requires
        0 <= t < 64,
    ensures
        sq(!FILE_A, t) == (file_of(t) != 0),
        sq(!FILE_H, t) == (file_of(t) != 7),
{
    let tv = t as u64;
    let i = (63 - t) as u64;
    assert(((!0x8080_8080_8080_8080u64) & (1u64 << i) != 0) == (tv % 8 != 0)) by (bit_vector)
        requires
            i < 64,
            tv < 64,
            i == 63 - tv,
    ;
    assert(((!0x0101_0101_0101_0101u64) & (1u64 << i) != 0) == (tv % 8 != 7)) by (bit_vector)
        requires
            i < 64,
            tv < 64,
            i == 63 - tv,
    ;
}

/// Walking a line step by step: the first `n + 1` steps stay on the board
/// exactly when the first `n` do and one more step is fine from there.
pub proof fn lemma_line_extend(s: int, d: int, n: int)
    requires
        0 <= d < 8,
        n >= 0,
        line_ok(s, d, n),
    ensures
        line_ok(s, d, n + 1) == step_ok(step_to(s, d, n), d),
{
    let u = step_to(s, d, n);
    lemma_step_coords(s, d, n);
    assert((n + 1) * delta(d) == n * delta(d) + delta(d)) by (nonlinear_arith);
    assert((n + 1) * dir_dr(d) == n * dir_dr(d) + dir_dr(d)) by (nonlinear_arith);
    assert((n + 1) * dir_df(d) == n * dir_df(d) + dir_df(d)) by (nonlinear_arith);
    assert(u + delta(d) == step_to(s, d, n + 1));
    assert(u == 8 * rank_of(u) + file_of(u));
    if step_ok(u, d) {
        lemma_coords_join(u + delta(d), rank_of(u) + dir_dr(d), file_of(u) + dir_df(d));
    }
    if line_ok(s, d, n + 1) {
        lemma_step_coords(s, d, n + 1);
    }
}

/// After `n` safe steps the blind square arithmetic agrees with the rank
/// and file arithmetic.
pub proof fn lemma_step_coords(s: int, d: int, n: int)
    requires
        0 <= d < 8,
        n >= 0,
        line_ok(s, d, n),
    ensures
        0 <= step_to(s, d, n) < 64,
        rank_of(step_to(s, d, n)) == rank_of(s) + n * dir_dr(d),
        file_of(step_to(s, d, n)) == file_of(s) + n * dir_df(d),
    decreases n,
{
    if n == 0 {
        assert(step_to(s, d, 0) == s);
    } else {
        lemma_line_shrink(s, d, n);
        lemma_step_coords(s, d, n - 1);
        let u = step_to(s, d, n - 1);
        assert(step_to(s, d, n) == u + delta(d)) by {
            assert(n * delta(d) == (n - 1) * delta(d) + delta(d)) by (nonlinear_arith);
        }
        assert(n * dir_dr(d) == (n - 1) * dir_dr(d) + dir_dr(d)) by (nonlinear_arith);
        assert(n * dir_df(d) == (n - 1) * dir_df(d) + dir_df(d)) by (nonlinear_arith);
        lemma_coords_join(u + delta(d), rank_of(u) + dir_dr(d), file_of(u) + dir_df(d));
    }
}

/// A line that stays on the board for `n` steps does so for any fewer.
pub proof fn lemma_line_shrink(s: int, d: int, n: int)
    requires
        0 <= d < 8,
        line_ok(s, d, n),
        n >= 1,
    ensures
        line_ok(s, d, n - 1),
{
    lemma_mul_between(dir_dr(d), n);
    lemma_mul_between(dir_df(d), n);
}

/// For a unit factor, `(n - 1) * c` lies between `0` and `n * c`.
proof fn lemma_mul_between(c: int, n: int)
    requires
        -1 <= c <= 1,
        n >= 1,
    ensures
        (n - 1) * c == n * c - c,
        0 <= (n - 1) * c <= n * c || n * c <= (n - 1) * c <= 0,
{
    assert((n - 1) * c == n * c - c) by (nonlinear_arith);
    assert(c == 0 ==> n * c == 0 && (n - 1) * c == 0) by (nonlinear_arith);
    assert(c == 1 ==> n * c == n && (n - 1) * c == n - 1) by (nonlinear_arith);
    assert(c == -1 ==> n * c == -n && (n - 1) * c == 1 - n) by (nonlinear_arith);
}

/// Stepping `a + b` times is stepping `a` times, then `b` more.
pub proof fn lemma_step_add(s: int, d: int, a: int, b: int)
    ensures
        step_to(s, d, a + b) == step_to(step_to(s, d, a), d, b),
{
    assert((a + b) * delta(d) == a * delta(d) + b * delta(d)) by (nonlinear_arith);
}

/// A line that stays on the board for `n` steps does so for any prefix.
pub proof fn lemma_line_mono(s: int, d: int, m: int, n: int)
    requires
        0 <= d < 8,
        0 <= m <= n,
        line_ok(s, d, n),
    ensures
        line_ok(s, d, m),
    decreases n - m,
{
    if m < n {
        lemma_line_shrink(s, d, n);
        lemma_line_mono(s, d, m, n - 1);
    }
}

/// No line takes eight steps: the board is only eight squares wide.
pub proof fn lemma_line_max(s: int, d: int)
    requires
        0 <= d < 8,
    ensures
        !line_ok(s, d, 8),
{
    assert(dir_dr(d) == 1 ==> 8 * dir_dr(d) == 8) by (nonlinear_arith);
    assert(dir_dr(d) == -1 ==> 8 * dir_dr(d) == -8) by (nonlinear_arith);
    assert(dir_df(d) == 1 ==> 8 * dir_df(d) == 8) by (nonlinear_arith);
    assert(dir_df(d) == -1 ==> 8 * dir_df(d) == -8) by (nonlinear_arith);
}

/// A step is a step backward along the opposite direction.
pub proof fn lemma_step_reverse(u: int, e: int)
    requires
        0 <= e < 8,
    ensures
        step_ok(u, e) == step_ok(u + delta(e), opposite(e)),
{
}

/// A capturing line, read from the square after the move, is a run of
/// opposing stones ending on the mover's own stone.
pub proof fn lemma_captures_as_run(own: u64, opp: u64, s: int, d: int, k: int)
    requires
        0 <= d < 8,
        k >= 1,
    ensures
        captures_k(own, opp, s, d, k) == (step_ok(s, d) && run_to_own(
            own,
            opp,
            d,
            s + delta(d),
            k,
        )),
{
    let u = s + delta(d);
    lemma_line_shift(s, d, k);
    assert forall|j: int| step_to(u, d, j) == step_to(s, d, j + 1) by {
        lemma_step_add(s, d, 1, j);
    }
    assert(step_to(s, d, 1) == u);
    if captures_k(own, opp, s, d, k) {
        assert forall|j: int| 0 <= j < k implies sq(opp, #[trigger] step_to(u, d, j)) by {
            assert(sq(opp, step_to(s, d, j + 1)));
        }
        assert(sq(own, step_to(u, d, k)));
    }
    if step_ok(s, d) && run_to_own(own, opp, d, u, k) {
        assert forall|j: int| 1 <= j <= k implies sq(opp, #[trigger] step_to(s, d, j)) by {
            assert(sq(opp, step_to(u, d, j - 1)));
        }
        assert(sq(own, step_to(s, d, k + 1)));
    }
}

/// Lengthening a run by one square at its near end.
pub proof fn lemma_run_unfold(own: u64, opp: u64, d: int, u: int, i: int)
    requires
        0 <= d < 8,
        i >= 1,
    ensures
        run_to_own(own, opp, d, u, i + 1) == (sq(opp, u) && step_ok(u, d) && run_to_own(
            own,
            opp,
            d,
            u + delta(d),
            i,
        )),
{
    let v = u + delta(d);
    lemma_line_shift(u, d, i);
    assert forall|j: int| step_to(v, d, j) == step_to(u, d, j + 1) by {
        lemma_step_add(u, d, 1, j);
    }
    assert(step_to(u, d, 0) == u);
    if run_to_own(own, opp, d, u, i + 1) {
        assert forall|j: int| 0 <= j < i implies sq(opp, #[trigger] step_to(v, d, j)) by {
            assert(sq(opp, step_to(u, d, j + 1)));
        }
        assert(sq(own, step_to(v, d, i)));
    }
    if sq(opp, u) && step_ok(u, d) && run_to_own(own, opp, d, v, i) {
        assert forall|j: int| 0 <= j < i + 1 implies sq(opp, #[trigger] step_to(u, d, j)) by {
            if j >= 1 {
                assert(sq(opp, step_to(v, d, j - 1)));
            }
        }
        assert(sq(own, step_to(u, d, i + 1)));
    }
}

/// The shortest run: one opposing stone with the mover's stone behind it.
pub proof fn lemma_run_base(own: u64, opp: u64, d: int, u: int)
    requires
        0 <= d < 8,
    ensures
        run_to_own(own, opp, d, u, 1) == (sq(opp, u) && step_ok(u, d) && sq(own, u + delta(d))),
{
    lemma_line_shift(u, d, 0);
    assert(step_to(u, d, 0) == u);
    assert(step_to(u, d, 1) == u + delta(d));
    if 0 <= u < 64 {
        assert(line_ok(u, d, 0));
    }
}

/// A line moved along itself: taking the first step, then `n` more.
pub proof fn lemma_line_shift(s: int, d: int, n: int)
    requires
        0 <= d < 8,
        n >= 0,
    ensures
        line_ok(s, d, n + 1) == (step_ok(s, d) && line_ok(s + delta(d), d, n)),
{
    let u = s + delta(d);
    assert((n + 1) * dir_dr(d) == n * dir_dr(d) + dir_dr(d)) by (nonlinear_arith);
    assert((n + 1) * dir_df(d) == n * dir_df(d) + dir_df(d)) by (nonlinear_arith);
    if step_ok(s, d) {
        assert(s == 8 * rank_of(s) + file_of(s));
        lemma_coords_join(u, rank_of(s) + dir_dr(d), file_of(s) + dir_df(d));
    }
    if line_ok(s, d, n + 1) {
        lemma_line_mono(s, d, 1, n + 1);
        lemma_line_extend(s, d, 0);
        assert(step_to(s, d, 0) == s);
        assert(step_ok(s, d));
        assert(s == 8 * rank_of(s) + file_of(s));
        lemma_coords_join(u, rank_of(s) + dir_dr(d), file_of(s) + dir_df(d));
    }
}

/// A capture run fits strictly inside one board line.
pub proof fn lemma_captures_bound(own: u64, opp: u64, s: int, d: int, k: int)
    requires
        0 <= d < 8,
        captures_k(own, opp, s, d, k),
    ensures
        1 <= k <= 6,
{
    if k >= 7 {
        lemma_line_mono(s, d, 8, k + 1);
        lemma_line_max(s, d);
    }
}

/// On a board where the two sides do not overlap, no square holds both.
pub proof fn lemma_disjoint(own: u64, opp: u64, t: int)
    requires
        own & opp == 0,
    ensures
        !(sq(own, t) && sq(opp, t)),
{
    lemma_sq_and(own, opp, t);
    lemma_sq_zero(t);
}

/// A square in range whose file offset is in range has exactly that rank
/// and file.
proof fn lemma_coords_join(t: int, r: int, f: int)
    requires
        t == r * 8 + f,
        0 <= t < 64,
        0 <= f < 8,
    ensures
        0 <= r < 8,
        rank_of(t) == r,
        file_of(t) == f,
{
}

/// The legal destinations whose capturing line runs opposite to the shift
/// direction `dir`: a bounded flood fill that pushes the mover's stones
/// through the opponent's and lands on an empty square.
pub(crate) fn dir_moves(own: u64, opp: u64, empty: u64, dir: Direction) -> (moves: u64)
    ensures
        forall|s: int|
            #[trigger] sq(moves, s) == (sq(empty, s) && captures(
                own,
                opp,
                s,
                opposite(dir.index()),
            )),
{
    let ghost e = dir.index();
    let ghost c = opposite(e);
    let mut candidates: u64 = dir.shift(own) & opp;
    let mut moves: u64 = 0;
    proof {
        assert(delta(c) == -delta(e));
        assert forall|u: int| #[trigger] sq(candidates, u) == run_to_own(own, opp, c, u, 1) by {
            lemma_sq_and(dir_shift_spec(own, e), opp, u);
            lemma_dir_shift_sq(own, e, u);
            lemma_step_reverse(u + delta(c), e);
            lemma_run_base(own, opp, c, u);
            assert(u - delta(e) == u + delta(c));
        }
        assert forall|s: int| !#[trigger] sq(moves, s) by {
            lemma_sq_zero(s);
        }
    }
    for i in 1..8usize
        invariant
            0 <= e < 8,
            e == dir.index(),
            c == opposite(e),
            forall|u: int| #[trigger] sq(candidates, u) == run_to_own(own, opp, c, u, i as int),
            forall|s: int|
                #[trigger] sq(moves, s) == (sq(empty, s) && exists|kk: int|
                    1 <= kk < i && captures_k(own, opp, s, c, kk)),
    {
        let ghost old_candidates = candidates;
        let ghost old_moves = moves;
        let next = dir.shift(candidates);
        moves = moves | (empty & next);
        candidates = next & opp;
        proof {
            assert(delta(c) == -delta(e));
            assert forall|u: int|
                #[trigger] sq(candidates, u) == run_to_own(own, opp, c, u, i + 1) by {
                lemma_sq_and(next, opp, u);
                lemma_dir_shift_sq(old_candidates, e, u);
                lemma_step_reverse(u + delta(c), e);
                lemma_run_unfold(own, opp, c, u, i as int);
                assert(u - delta(e) == u + delta(c));
            }
            assert forall|s: int|
                #[trigger] sq(moves, s) == (sq(empty, s) && exists|kk: int|
                    1 <= kk < i + 1 && captures_k(own, opp, s, c, kk)) by {
                lemma_sq_or(old_moves, empty & next, s);
                lemma_sq_and(empty, next, s);
                lemma_dir_shift_sq(old_candidates, e, s);
                lemma_step_reverse(s + delta(c), e);
                lemma_captures_as_run(own, opp, s, c, i as int);
                assert(s - delta(e) == s + delta(c));
                if sq(empty, s) && sq(old_candidates, s + delta(c)) && step_ok(s, c) {
                    assert(captures_k(own, opp, s, c, i as int));
                }
            }
        }
    }
    proof {
        assert forall|s: int|
            #[trigger] sq(moves, s) == (sq(empty, s) && captures(own, opp, s, c)) by {
            if sq(empty, s) && captures(own, opp, s, c) {
                let k = choose|k: int| captures_k(own, opp, s, c, k);
                lemma_captures_bound(own, opp, s, c, k);
            }
        }
    }
    moves
}

/// The stones direction `dir` flips when the square under the single bit of
/// `pos` is played: a walk from that square through the opponent's stones,
/// kept only when it ends on one of the mover's own.
pub(crate) fn dir_flips(own: u64, opp: u64, pos: u64, dir: Direction) -> (m: u64)
    requires
        own & opp == 0,
        own & pos == 0,
        opp & pos == 0,
        one_hot(pos),
    ensures
        forall|t: int|
            #[trigger] sq(m, t) == dir_flip_sq(own, opp, u64_leading_zeros(pos), dir.index(), t),
        (m != 0) == captures(own, opp, u64_leading_zeros(pos), dir.index()),
{
    let ghost c = dir.index();
    let ghost s0 = u64_leading_zeros(pos);
    proof {
        lemma_one_hot_index(pos);
        lemma_disjoint(own, pos, s0);
        lemma_disjoint(opp, pos, s0);
        assert(line_ok(s0, c, 0)) by {
            assert(step_to(s0, c, 0) == s0);
        }
    }
    let mut probe: u64 = dir.shift(pos);
    let mut run: u64 = 0;
    let ghost mut j: int = 0;
    proof {
        assert forall|t: int| !#[trigger] sq(run, t) by {
            lemma_sq_zero(t);
        }
    }
    while probe & opp != 0
        invariant
            0 <= c < 8,
            c == dir.index(),
            s0 == u64_leading_zeros(pos),
            pos == mask_of(s0),
            0 <= s0 < 64,
            own & opp == 0,
            0 <= j <= 7,
            line_ok(s0, c, j),
            forall|jj: int| 1 <= jj <= j ==> sq(opp, #[trigger] step_to(s0, c, jj)),
            forall|t: int|
                #[trigger] sq(run, t) == exists|jj: int| 1 <= jj <= j && t == step_to(s0, c, jj),
            probe == dir_shift_spec(mask_of(step_to(s0, c, j)), c),
        decreases 8 - j,
    {
        proof {
            let u = step_to(s0, c, j);
            lemma_step_coords(s0, c, j);
            lemma_nonzero_has_sq(probe & opp);
            let t0 = u64_leading_zeros(probe & opp);
            lemma_sq_and(probe, opp, t0);
            lemma_dir_shift_sq(mask_of(u), c, t0);
            lemma_sq_mask(u, t0 - delta(c));
            assert(step_ok(u, c) && t0 == u + delta(c) && sq(opp, t0));
            lemma_line_extend(s0, c, j);
            assert(line_ok(s0, c, j + 1));
            if j == 7 {
                lemma_line_max(s0, c);
                assert(false);
            }
            assert(step_to(s0, c, j + 1) == t0) by {
                lemma_step_add(s0, c, j, 1);
            }
        }
        let ghost old_run = run;
        let ghost old_probe = probe;
        let hit = probe & opp;
        run = run | hit;
        probe = dir.shift(hit);
        proof {
            let u = step_to(s0, c, j);
            let t0 = step_to(s0, c, j + 1);
            assert forall|t: int| #[trigger] sq(hit, t) == (t == t0) by {
                lemma_sq_and(old_probe, opp, t);
                lemma_dir_shift_sq(mask_of(u), c, t);
                lemma_sq_mask(u, t - delta(c));
            }
            assert forall|t: int| sq(hit, t) == sq(mask_of(t0), t) by {
                lemma_sq_mask(t0, t);
            }
            lemma_sq_ext(hit, mask_of(t0));
            j = j + 1;
            assert forall|t: int|
                #[trigger] sq(run, t) == exists|jj: int| 1 <= jj <= j && t == step_to(s0, c, jj) by {
                lemma_sq_or(old_run, hit, t);
                if sq(old_run, t) {
                    let jj = choose|jj: int| 1 <= jj <= j - 1 && t == step_to(s0, c, jj);
                    assert(1 <= jj <= j && t == step_to(s0, c, jj));
                }
                if !sq(old_run, t) && !sq(hit, t) {
                    if exists|jj: int| 1 <= jj <= j && t == step_to(s0, c, jj) {
                        let jj = choose|jj: int| 1 <= jj <= j && t == step_to(s0, c, jj);
                        assert(jj <= j - 1 || t == t0);
                    }
                }
            }
        }
    }
    let flips = if run != 0 && probe & own != 0 {
        run
    } else {
        0u64
    };
    proof {
        let u = step_to(s0, c, j);
        lemma_step_coords(s0, c, j);
        if j >= 1 && probe & own != 0 {
            // the walk found a run of j opposing stones ending on the mover's
            // own stone, so direction c captures exactly those squares
            lemma_nonzero_has_sq(probe & own);
            let t0 = u64_leading_zeros(probe & own);
            lemma_sq_and(probe, own, t0);
            lemma_dir_shift_sq(mask_of(u), c, t0);
            lemma_sq_mask(u, t0 - delta(c));
            assert(step_ok(u, c) && t0 == u + delta(c) && sq(own, t0));
            lemma_line_extend(s0, c, j);
            assert(step_to(s0, c, j + 1) == t0) by {
                lemma_step_add(s0, c, j, 1);
            }
            assert(captures_k(own, opp, s0, c, j));
            assert(sq(run, step_to(s0, c, 1)));
            assert forall|t: int| #[trigger] sq(run, t) == dir_flip_sq(own, opp, s0, c, t) by {
                if sq(run, t) {
                    let jj = choose|jj: int| 1 <= jj <= j && t == step_to(s0, c, jj);
                    assert(captures_k(own, opp, s0, c, j) && 1 <= jj <= j && t == step_to(
                        s0,
                        c,
                        jj,
                    ));
                }
                if dir_flip_sq(own, opp, s0, c, t) {
                    let (k, jj) = choose|k: int, jj: int|
                        captures_k(own, opp, s0, c, k) && 1 <= jj <= k && t == step_to(s0, c, jj);
                    lemma_other_run_same_length(own, opp, s0, c, k, j, probe);
                }
            }
        } else {
            // no capture in this direction: show every claimed one impossible
            assert forall|t: int| !dir_flip_sq(own, opp, s0, c, t) by {
                if dir_flip_sq(own, opp, s0, c, t) {
                    let (k, jj) = choose|k: int, jj: int|
                        captures_k(own, opp, s0, c, k) && 1 <= jj <= k && t == step_to(s0, c, jj);
                    lemma_other_run_same_length(own, opp, s0, c, k, j, probe);
                    assert(k == j);
                    if j >= 1 {
                        assert(sq(own, step_to(s0, c, j + 1)));
                        lemma_line_extend(s0, c, j);
                        lemma_step_add(s0, c, j, 1);
                        lemma_sq_and(probe, own, step_to(s0, c, j + 1));
                        lemma_dir_shift_sq(mask_of(u), c, step_to(s0, c, j + 1));
                        lemma_sq_mask(u, step_to(s0, c, j + 1) - delta(c));
                        assert(sq(probe & own, step_to(s0, c, j + 1)));
                        lemma_sq_zero(step_to(s0, c, j + 1));
                        assert(false);
                    } else {
                        assert(false);
                    }
                }
            }
            if j == 0 && run != 0 {
                lemma_nonzero_has_sq(run);
                assert(false);
            }
            assert(flips == 0);
            assert forall|t: int| !#[trigger] sq(flips, t) by {
                lemma_sq_zero(t);
            }
            if captures(own, opp, s0, c) {
                let k = choose|k: int| captures_k(own, opp, s0, c, k);
                assert(dir_flip_sq(own, opp, s0, c, step_to(s0, c, 1)));
                assert(false);
            }
        }
        if flips != 0 {
            lemma_nonzero_has_sq(flips);
        }
        if captures(own, opp, s0, c) && flips == 0 {
            let k = choose|k: int| captures_k(own, opp, s0, c, k);
            assert(dir_flip_sq(own, opp, s0, c, step_to(s0, c, 1)));
            assert(sq(flips, step_to(s0, c, 1)));
            lemma_sq_zero(step_to(s0, c, 1));
        }
    }
    flips
}

/// Any capturing run in direction `c` from `s0` is as long as the walk the
/// loop above just finished: the walk's facts pin the run length.
proof fn lemma_other_run_same_length(
    own: u64,
    opp: u64,
    s0: int,
    c: int,
    k: int,
    j: int,
    probe: u64,
)
    requires
        0 <= c < 8,
        0 <= s0 < 64,
        own & opp == 0,
        captures_k(own, opp, s0, c, k),
        0 <= j <= 7,
        line_ok(s0, c, j),
        forall|jj: int| 1 <= jj <= j ==> sq(opp, #[trigger] step_to(s0, c, jj)),
        probe == dir_shift_spec(mask_of(step_to(s0, c, j)), c),
        probe & opp == 0,
    ensures
        k == j,
{
    let u = step_to(s0, c, j);
    lemma_step_coords(s0, c, j);
    if k < j {
        // the run's ending stone would sit where the walk saw the opponent
        lemma_disjoint(own, opp, step_to(s0, c, k + 1));
    } else if k > j {
        // the walk stopped only because the next square held no opponent,
        // yet the longer run claims one there
        assert(sq(opp, step_to(s0, c, j + 1)));
        lemma_line_mono(s0, c, j + 1, k + 1);
        lemma_line_extend(s0, c, j);
        lemma_step_add(s0, c, j, 1);
        lemma_dir_shift_sq(mask_of(u), c, step_to(s0, c, j + 1));
        lemma_sq_mask(u, step_to(s0, c, j + 1) - delta(c));
        lemma_sq_and(probe, opp, step_to(s0, c, j + 1));
        assert(sq(probe & opp, step_to(s0, c, j + 1)));
        lemma_sq_zero(step_to(s0, c, j + 1));
        assert(false);
    }
}

} // verus!
