//! The two stone colors players can play with.

use vstd::prelude::*;

verus! {

/// One of the two stone colors available on a standard Othello board.
#[derive(Copy, Clone, Debug, Eq, PartialEq, Hash, Structural)]
pub enum Stone {
    Black,
    White,
}

impl Stone {
    /// The opposite color of this stone.
    pub open spec fn flip_spec(self) -> Stone {
        match self {
            Stone::Black => Stone::White,
            Stone::White => Stone::Black,
        }
    }

    /// Returns the opposite side of a standard Othello stone.
    pub fn flip(&self) -> (r: Stone)
        ensures
            r == self.flip_spec(),
    {
        match self {
            Stone::Black => Stone::White,
            Stone::White => Stone::Black,
        }
    }
}

} // verus!
