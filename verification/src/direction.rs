//! The eight compass directions a capturing line can run in.

use crate::othello::rules::dir_shift_spec;
use crate::othello::rules::FILE_A;
use crate::othello::rules::FILE_H;
use vstd::prelude::*;

verus! {

/// A compass direction on the board, where north points from rank 8 toward
/// rank 1 and east from file A toward file H.
#[derive(Clone, Copy, Debug, Eq, PartialEq, Structural)]
pub enum Direction {
    N,
    NE,
    E,
    SE,
    S,
    SW,
    W,
    NW,
}

impl Direction {
    /// The number of this direction, in the order N, NE, E, SE, S, SW, W,
    /// NW.
    pub open spec fn index(self) -> int {
        match self {
            Direction::N => 0,
            Direction::NE => 1,
            Direction::E => 2,
            Direction::SE => 3,
            Direction::S => 4,
            Direction::SW => 5,
            Direction::W => 6,
            Direction::NW => 7,
        }
    }

    /// All eight directions, in the order N, NE, E, SE, S, SW, W, NW.
    pub fn cardinals() -> (r: Vec<Direction>)
        ensures
            r@.len() == 8,
            forall|i: int| 0 <= i < 8 ==> (#[trigger] r@[i]).index() == i,
    {
        let r = vec![
            Direction::N,
            Direction::NE,
            Direction::E,
            Direction::SE,
            Direction::S,
            Direction::SW,
            Direction::W,
            Direction::NW,
        ];
        assert(r@[0].index() == 0);
        assert(r@[1].index() == 1);
        assert(r@[2].index() == 2);
        assert(r@[3].index() == 3);
        assert(r@[4].index() == 4);
        assert(r@[5].index() == 5);
        assert(r@[6].index() == 6);
        assert(r@[7].index() == 7);
        r
    }

    /// Moves every stone of `pos` one square along this direction.  Stones
    /// that would leave the board, or wrap around its left or right edge,
    /// disappear instead.
    pub fn shift(self, pos: u64) -> (r: u64)
        ensures
            r == dir_shift_spec(pos, self.index()),
    {
        match self {
            Direction::N => pos << 8,
            Direction::NE => (pos << 7) & !FILE_A,
            Direction::E => (pos >> 1) & !FILE_A,
            Direction::SE => (pos >> 9) & !FILE_A,
            Direction::S => pos >> 8,
            Direction::SW => (pos >> 7) & !FILE_H,
            Direction::W => (pos << 1) & !FILE_H,
            Direction::NW => (pos << 9) & !FILE_H,
        }
    }
}

} // verus!
