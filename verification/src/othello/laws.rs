//! Board-level laws: facts that hold of every board the checked operations
//! can produce.

use super::bits::sq;
use super::board::play_result;
use super::board::Board;
use super::rules::captures_k;
use super::rules::dir_flip_sq;
use super::rules::flips;
use super::rules::is_legal;
use super::rules::lemma_disjoint;
use super::rules::step_to;
use super::stone::Stone;
use vstd::prelude::*;

verus! {

/// On a consistent board the two sides' masks never meet: no square holds a
/// stone of both colors.  Every checked constructor builds a consistent
/// board and [`Board::play`] keeps it so, which makes this hold of every
/// reachable board.
///
/// [`Board::play`]: super::board::Board::play
pub proof fn lemma_sides_disjoint(b: Board)
    requires
        b.valid(),
    ensures
        b.side(Stone::Black) & b.side(Stone::White) == 0,
        forall|t: int| !(sq(b.black(), t) && #[trigger] sq(b.white(), t)),
{
    assert forall|t: int| !(sq(b.black(), t) && #[trigger] sq(b.white(), t)) by {
        lemma_disjoint(b.black(), b.white(), t);
    }
}

/// On any board at all, the stones of either color and the empty squares do
/// not meet: a square is occupied or empty, never both.
pub proof fn lemma_stones_empty_disjoint(b: Board)
    ensures
        (b.side(Stone::Black) | b.side(Stone::White)) & b.empty_mask() == 0,
{
    let x = b.black() | b.white();
    assert(x & !x == 0) by (bit_vector);
}

/// A legal move really captures: playing it flips at least one of the
/// opponent's stones.
pub proof fn lemma_legal_move_flips(own: u64, opp: u64, s: int)
    requires
        is_legal(own, opp, s),
    ensures
        exists|t: int| #[trigger] flips(own, opp, s, t) && sq(opp, t),
{
    let d = choose|d: int| 0 <= d < 8 && #[trigger] super::rules::captures(own, opp, s, d);
    let k = choose|k: int| captures_k(own, opp, s, d, k);
    let t = step_to(s, d, 1);
    assert(dir_flip_sq(own, opp, s, d, t));
    assert(flips(own, opp, s, t) && sq(opp, t));
}

/// After a play the mover holds the move's square, and the opponent still
/// does not.
pub proof fn lemma_play_gains_square(pre: Board, stone: Stone, s: int, post: Board)
    requires
        pre.valid(),
        is_legal(pre.side(stone), pre.side(stone.flip_spec()), s),
        play_result(pre, stone, s, post),
    ensures
        sq(post.side(stone), s),
        !sq(post.side(stone.flip_spec()), s),
{
}

} // verus!
