//! An Othello board and convenient functions to manipulate it.

use super::bitboard::Bitboard;
use super::display::BoardDisplay;
use super::bits::lemma_nonzero_has_sq;
use super::bits::lemma_sq_and;
use super::bits::lemma_sq_ext;
use super::bits::lemma_sq_not;
use super::bits::lemma_sq_or;
use super::bits::lemma_sq_xor;
use super::bits::lemma_sq_zero;
use super::bits::mask_of;
use super::bits::sq;
use super::position::Position;
use super::rules::captures;
use super::rules::captures_k;
use super::rules::dir_flip_sq;
use super::rules::dir_flips;
use super::rules::dir_moves;
use super::rules::flips;
use super::rules::flips_via;
use super::rules::is_legal;
use super::rules::opposite;
use super::rules::step_to;
use super::stone::Stone;
use crate::direction::Direction;
use vstd::prelude::*;

verus! {

/// The four stones every game starts from, for the black side.
pub const BLACK_START_POS: u64 = 0x0000_0008_1000_0000;

/// The four stones every game starts from, for the white side.
pub const WHITE_START_POS: u64 = 0x0000_0010_0800_0000;

/// Represents an Othello board and provides convenient functions to
/// manipulate it.
///
/// The board is represented by two bitboards, one for black and one for
/// white.  Each bitboard is a 64-bit unsigned integer, where each bit
/// encodes if a stone for that player exists on that space.  MSB denotes A1
/// while LSB denotes H8.
#[derive(Clone, Copy, Debug, Eq, PartialEq, Hash, Structural)]
pub struct Board {
    pub(crate) black_stones: Bitboard,
    pub(crate) white_stones: Bitboard,
}

/// Board `post` is board `pre` after the side of `stone` plays square `s`:
/// the mover gains the square and every flipped stone, and the opponent
/// loses exactly the flipped stones.
pub open spec fn play_result(pre: Board, stone: Stone, s: int, post: Board) -> bool {
    &&& (forall|t: int|
        #[trigger] sq(post.side(stone), t) == (sq(pre.side(stone), t) || t == s || flips(
            pre.side(stone),
            pre.side(stone.flip_spec()),
            s,
            t,
        )))
    &&& (forall|t: int|
        #[trigger] sq(post.side(stone.flip_spec()), t) == (sq(pre.side(stone.flip_spec()), t)
            && !flips(pre.side(stone), pre.side(stone.flip_spec()), s, t)))
}

impl Board {
    /// The mask of the black side's stones.
    pub closed spec fn black(self) -> u64 {
        self.black_stones@
    }

    /// The mask of the white side's stones.
    pub closed spec fn white(self) -> u64 {
        self.white_stones@
    }

    /// The mask of the given side's stones.
    pub open spec fn side(self, stone: Stone) -> u64 {
        match stone {
            Stone::Black => self.black(),
            Stone::White => self.white(),
        }
    }

    /// No square holds a stone of both colors.
    pub open spec fn valid(self) -> bool {
        self.black() & self.white() == 0
    }

    /// The mask of the squares neither side occupies.
    pub open spec fn empty_mask(self) -> u64 {
        !(self.black() | self.white())
    }

    /// Returns a completely empty board.
    pub fn empty() -> (r: Self)
        ensures
            r.black() == 0,
            r.white() == 0,
            r.valid(),
    {
        proof {
            assert(0u64 & 0u64 == 0u64) by (bit_vector);
        }
        Self { black_stones: Bitboard(0), white_stones: Bitboard(0) }
    }

    /// Returns a board with the standard opening position configured: two
    /// stones of each color crossed in the middle of the board.
    pub fn standard() -> (r: Self)
        ensures
            r.black() == BLACK_START_POS,
            r.white() == WHITE_START_POS,
            r.valid(),
    {
        proof {
            assert(0x0000_0008_1000_0000u64 & 0x0000_0010_0800_0000u64 == 0u64) by (bit_vector);
        }
        Self { black_stones: Bitboard(BLACK_START_POS), white_stones: Bitboard(WHITE_START_POS) }
    }

    /// Returns a board built from the two specified masks, or an error if
    /// they intersect.
    pub fn try_from(stones: (u64, u64)) -> (r: Result<Self, BoardError>)
        ensures
            stones.0 & stones.1 == 0 ==> (r matches Ok(b) && b.black() == stones.0 && b.white()
                == stones.1),
            stones.0 & stones.1 != 0 ==> r == Err::<Board, BoardError>(
                BoardError::OverlappingPieces,
            ),
            r matches Ok(b) ==> b.valid(),
    {
        let (black_stones, white_stones) = stones;
        if black_stones & white_stones != 0 {
            Err(BoardError::OverlappingPieces)
        } else {
            Ok(Self { black_stones: Bitboard(black_stones), white_stones: Bitboard(white_stones) })
        }
    }

    /// Evaluates if the board is in a consistent state: no two stones
    /// occupy the same square.
    pub fn is_valid(&self) -> (r: bool)
        ensures
            r == self.valid(),
    {
        self.black_stones.0 & self.white_stones.0 == 0
    }

    /// Places stones in the specified positions.
    ///
    /// Multiple stones may be placed at once, but no other stones will be
    /// flipped as during normal play.  No restrictions are placed on the
    /// number or position of the pieces, which may result in an invalid
    /// board where multiple stones occupy the same square.  It is the
    /// responsibility of the caller to ensure that the board remains
    /// consistent.
    pub fn place_stone_unchecked(&mut self, stone: Stone, pos: Bitboard)
        ensures
            final(self).side(stone) == old(self).side(stone) | pos@,
            final(self).side(stone.flip_spec()) == old(self).side(stone.flip_spec()),
    {
        match stone {
            Stone::Black => {
                self.black_stones = Bitboard(self.black_stones.0 | pos.0);
            },
            Stone::White => {
                self.white_stones = Bitboard(self.white_stones.0 | pos.0);
            },
        }
    }

    /// Removes stones in the specified positions.
    ///
    /// Multiple stones may be removed at once.
    pub fn remove_stone_unchecked(&mut self, stone: Stone, pos: Bitboard)
        ensures
            final(self).side(stone) == old(self).side(stone) & !pos@,
            final(self).side(stone.flip_spec()) == old(self).side(stone.flip_spec()),
    {
        match stone {
            Stone::Black => {
                self.black_stones = Bitboard(self.black_stones.0 & !pos.0);
            },
            Stone::White => {
                self.white_stones = Bitboard(self.white_stones.0 & !pos.0);
            },
        }
    }

    /// Returns the bitboard representation of the specified player.
    pub fn bits_for(&self, stone: Stone) -> (r: Bitboard)
        ensures
            r@ == self.side(stone),
    {
        match stone {
            Stone::Black => self.black_stones,
            Stone::White => self.white_stones,
        }
    }

    /// Returns the set of all empty squares on the board.
    pub fn empty_squares(&self) -> (r: Bitboard)
        ensures
            r@ == self.empty_mask(),
    {
        Bitboard(!(self.black_stones.0 | self.white_stones.0))
    }

    /// What occupies the square of `pos`: the side whose stone sits there,
    /// or nothing.
    pub open spec fn stone_at_spec(self, s: int) -> Option<Stone> {
        if sq(self.black(), s) {
            Some(Stone::Black)
        } else if sq(self.white(), s) {
            Some(Stone::White)
        } else {
            None
        }
    }

    /// Returns a struct for customizing the display of Othello boards.
    pub fn display(&self) -> (r: BoardDisplay)
        ensures
            r.spec_board() == *self,
            r.spec_stone() is None,
            r.spec_format() is Standard,
    {
        BoardDisplay::new(self)
    }

    /// Queries the board at the specified position for the presence of a
    /// stone.
    pub fn stone_at(&self, pos: Position) -> (r: Option<Stone>)
        ensures
            r == self.stone_at_spec(pos.idx()),
    {
        proof {
            use_type_invariant(pos);
            pos.lemma_one_bit();
        }
        let p = pos.raw();
        if self.black_stones.0 & p != 0 {
            Some(Stone::Black)
        } else if self.white_stones.0 & p != 0 {
            Some(Stone::White)
        } else {
            None
        }
    }

    /// Calculates and returns the set of all legal moves for the specified
    /// player: one bit for every empty square from which a straight line of
    /// the opponent's stones, in some direction, ends on one of the
    /// player's own.
    pub fn moves_for(&self, stone: Stone) -> (r: Bitboard)
        ensures
            forall|s: int|
                #[trigger] sq(r@, s) == is_legal(
                    self.side(stone),
                    self.side(stone.flip_spec()),
                    s,
                ),
    {
        let own = self.bits_for(stone).0;
        let opp = self.bits_for(stone.flip()).0;
        let empty = !(own | opp);
        let dirs = Direction::cardinals();
        let mut moves: u64 = 0;
        proof {
            assert forall|s: int| !#[trigger] sq(moves, s) by {
                lemma_sq_zero(s);
            }
        }
        for i in 0..8usize
            invariant
                dirs@.len() == 8,
                forall|d: int| 0 <= d < 8 ==> (#[trigger] dirs@[d]).index() == d,
                own == self.side(stone),
                opp == self.side(stone.flip_spec()),
                empty == !(own | opp),
                forall|s: int|
                    #[trigger] sq(moves, s) == (sq(empty, s) && exists|e: int|
                        0 <= e < i && captures(own, opp, s, opposite(e))),
        {
            let ghost old_moves = moves;
            let found = dir_moves(own, opp, empty, dirs[i]);
            moves = moves | found;
            proof {
                assert forall|s: int|
                    #[trigger] sq(moves, s) == (sq(empty, s) && exists|e: int|
                        0 <= e < i + 1 && captures(own, opp, s, opposite(e))) by {
                    lemma_sq_or(old_moves, found, s);
                    if sq(found, s) {
                        assert(captures(own, opp, s, opposite(i as int)));
                    }
                }
            }
        }
        proof {
            assert forall|s: int|
                #[trigger] sq(moves, s) == is_legal(own, opp, s) by {
                if 0 <= s < 64 {
                    lemma_sq_not(own | opp, s);
                }
                lemma_sq_or(own, opp, s);
                if sq(moves, s) {
                    let e = choose|e: int| 0 <= e < 8 && captures(own, opp, s, opposite(e));
                    assert(0 <= opposite(e) < 8 && captures(own, opp, s, opposite(e)));
                }
                if is_legal(own, opp, s) {
                    let d = choose|d: int| 0 <= d < 8 && captures(own, opp, s, d);
                    assert(opposite(opposite(d)) == d);
                    assert(0 <= opposite(d) < 8 && captures(own, opp, s, opposite(opposite(d))));
                }
            }
        }
        Bitboard(moves)
    }

    /// Checks whether or not a move is valid for the specified player.
    pub fn is_legal_move(&self, stone: Stone, pos: Position) -> (r: bool)
        requires
            self.valid(),
        ensures
            r == is_legal(self.side(stone), self.side(stone.flip_spec()), pos.idx()),
    {
        proof {
            use_type_invariant(pos);
            pos.lemma_one_bit();
        }
        let p = pos.raw();
        let own = self.bits_for(stone).0;
        let opp = self.bits_for(stone.flip()).0;
        if p & (own | opp) != 0 {
            proof {
                lemma_nonzero_has_sq(p & (own | opp));
                let t = vstd::std_specs::bits::u64_leading_zeros(p & (own | opp));
                lemma_sq_and(p, own | opp, t);
                lemma_sq_or(own, opp, t);
                super::bits::lemma_sq_mask(pos.idx(), t);
            }
            return false;
        }
        proof {
            lemma_and_comm(own, opp);
            lemma_single_empty(own, opp, p, pos.idx());
        }
        let dirs = Direction::cardinals();
        let mut i: usize = 0;
        while i < 8
            invariant
                dirs@.len() == 8,
                forall|d: int| 0 <= d < 8 ==> (#[trigger] dirs@[d]).index() == d,
                own == self.side(stone),
                opp == self.side(stone.flip_spec()),
                self.valid(),
                i <= 8,
                p == pos@,
                p == mask_of(pos.idx()),
                0 <= pos.idx() < 64,
                own & p == 0,
                opp & p == 0,
                own & opp == 0,
                super::bits::one_hot(p),
                forall|d: int| 0 <= d < i ==> !#[trigger] captures(own, opp, pos.idx(), d),
            decreases 8 - i,
        {
            let m = dir_flips(own, opp, p, dirs[i]);
            if m != 0 {
                return true;
            }
            i += 1;
        }
        false
    }

    /// Places a stone in the specified position and updates the board
    /// accordingly: the move's square gains one of the player's stones, and
    /// every opposing stone on a capturing line is flipped.
    ///
    /// It is the responsibility of the caller to ensure that the move is
    /// legal for a consistent board; `requires` states that obligation.
    pub fn play(&mut self, stone: Stone, pos: Position)
        requires
            old(self).valid(),
            is_legal(old(self).side(stone), old(self).side(stone.flip_spec()), pos.idx()),
        ensures
            play_result(*old(self), stone, pos.idx(), *final(self)),
            final(self).valid(),
    {
        proof {
            use_type_invariant(pos);
            pos.lemma_one_bit();
        }
        let p = pos.raw();
        let own = self.bits_for(stone).0;
        let opp = self.bits_for(stone.flip()).0;
        let ghost s0 = pos.idx();
        proof {
            lemma_and_comm(own, opp);
            lemma_single_disjoint(own, p, s0);
            lemma_single_disjoint(opp, p, s0);
            super::rules::lemma_disjoint(own, opp, s0);
        }
        let dirs = Direction::cardinals();
        let mut mask: u64 = 0;
        proof {
            assert forall|t: int| !#[trigger] sq(mask, t) by {
                lemma_sq_zero(t);
            }
        }
        for i in 0..8usize
            invariant
                dirs@.len() == 8,
                forall|d: int| 0 <= d < 8 ==> (#[trigger] dirs@[d]).index() == d,
                own & opp == 0,
                own & p == 0,
                opp & p == 0,
                super::bits::one_hot(p),
                s0 == vstd::std_specs::bits::u64_leading_zeros(p),
                forall|t: int| #[trigger] sq(mask, t) == flips_via(own, opp, s0, t, i as int),
        {
            let ghost old_mask = mask;
            let found = dir_flips(own, opp, p, dirs[i]);
            mask = mask | found;
            proof {
                assert forall|t: int|
                    #[trigger] sq(mask, t) == flips_via(own, opp, s0, t, i + 1) by {
                    lemma_sq_or(old_mask, found, t);
                    if sq(found, t) {
                        assert(dir_flip_sq(own, opp, s0, i as int, t));
                    }
                    if flips_via(own, opp, s0, t, i + 1) {
                        let d = choose|d: int|
                            0 <= d < i + 1 && #[trigger] dir_flip_sq(own, opp, s0, d, t);
                        if d == i {
                            assert(sq(found, t));
                        }
                    }
                }
            }
        }
        let new_own = own | mask | p;
        let new_opp = opp ^ mask;
        proof {
            assert forall|t: int|
                #[trigger] sq(new_own, t) == (sq(own, t) || t == s0 || flips(own, opp, s0, t)) by {
                lemma_sq_or(own | mask, p, t);
                lemma_sq_or(own, mask, t);
                super::bits::lemma_sq_mask(s0, t);
            }
            assert forall|t: int|
                #[trigger] sq(new_opp, t) == (sq(opp, t) && !flips(own, opp, s0, t)) by {
                lemma_sq_xor(opp, mask, t);
                if sq(mask, t) {
                    let d = choose|d: int| 0 <= d < 8 && #[trigger] dir_flip_sq(own, opp, s0, d, t);
                    let (k, j) = choose|k: int, j: int|
                        captures_k(own, opp, s0, d, k) && 1 <= j <= k && t == step_to(s0, d, j);
                    assert(sq(opp, t));
                }
            }
            assert forall|t: int| !#[trigger] sq(0u64, t) by {
                lemma_sq_zero(t);
            }
            assert forall|t: int| !#[trigger] sq(new_own & new_opp, t) by {
                lemma_sq_and(new_own, new_opp, t);
                super::rules::lemma_disjoint(own, opp, t);
            }
            lemma_sq_ext(new_own & new_opp, 0);
            assert(new_opp & new_own == new_own & new_opp) by (bit_vector);
        }
        match stone {
            Stone::Black => {
                self.black_stones = Bitboard(new_own);
                self.white_stones = Bitboard(new_opp);
            },
            Stone::White => {
                self.white_stones = Bitboard(new_own);
                self.black_stones = Bitboard(new_opp);
            },
        }
    }
}

impl Default for Board {
    /// Returns a board with the standard opening position configured.
    fn default() -> (r: Self)
        ensures
            r.black() == BLACK_START_POS,
            r.white() == WHITE_START_POS,
    {
        Self::standard()
    }
}

/// This enum represents errors that may occur when using a Othello board.
#[derive(Clone, Copy, Debug, Eq, PartialEq, Hash, Structural)]
pub enum BoardError {
    /// Indicates that the operation would have resulted in two or more
    /// stones overlapping.
    OverlappingPieces,
}

/// The bitwise meet of two masks does not mind their order.
proof fn lemma_and_comm(a: u64, b: u64)
    ensures
        a & b == b & a,
{
    assert(a & b == b & a) by (bit_vector);
}

/// A single-square mask clear of both sides names an empty square.
proof fn lemma_single_empty(own: u64, opp: u64, p: u64, s: int)
    requires
        p == mask_of(s),
        0 <= s < 64,
        p & (own | opp) == 0,
    ensures
        !sq(own, s),
        !sq(opp, s),
        own & p == 0,
        opp & p == 0,
{
    lemma_sq_and(p, own | opp, s);
    lemma_sq_or(own, opp, s);
    super::bits::lemma_sq_mask(s, s);
    lemma_sq_zero(s);
    lemma_single_disjoint(own, p, s);
    lemma_single_disjoint(opp, p, s);
}

/// A mask that avoids the single square of `p` has no bit in common with
/// it.
proof fn lemma_single_disjoint(x: u64, p: u64, s: int)
    requires
        p == mask_of(s),
        0 <= s < 64,
        !sq(x, s),
    ensures
        x & p == 0,
{
    assert forall|t: int| sq(x & p, t) == sq(0u64, t) by {
        lemma_sq_and(x, p, t);
        super::bits::lemma_sq_mask(s, t);
        lemma_sq_zero(t);
    }
    lemma_sq_ext(x & p, 0);
}

} // verus!
