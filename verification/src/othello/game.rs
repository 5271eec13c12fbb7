//! An Othello game: a board together with turn and pass tracking.

use super::bitboard::Bitboard;
use super::display::BoardDisplay;
use super::bits::count_spec;
use super::bits::lemma_nonzero_has_sq;
use super::bits::lemma_sq_zero;
use super::bits::sq;
use super::board::play_result;
use super::board::Board;
use super::position::Position;
use super::rules::is_legal;
use super::stone::Stone;
use vstd::prelude::*;

verus! {

/// Represents an Othello game.
///
/// The game wraps a [`Board`] with whose-turn-it-is and pass tracking and
/// checks every move before applying it, so its board always stays
/// consistent.
#[derive(Clone, Copy, Debug, Eq, PartialEq, Hash, Structural)]
pub struct Game {
    board: Board,
    next_player: Stone,
    passed_last_turn: bool,
}

/// This enum represents all states the game can be in.
#[derive(Clone, Copy, Debug, Eq, PartialEq, Hash, Structural)]
pub enum Status {
    /// Indicates that the game has concluded with the specified winner.
    Win(Stone),
    /// Indicates that the game has concluded in a draw.
    Draw,
    /// Indicates that the game is still in progress.
    Progressing,
}

/// This enum represents errors that may occur when driving a game.
#[derive(Clone, Copy, Debug, Eq, PartialEq, Hash, Structural)]
pub enum OthelloError {
    /// Indicates that an illegal move was attempted.
    IllegalMove,
    /// Indicates that the operation would have resulted in one or more
    /// stones overlapping.
    PiecesOverlapping,
}

/// The side of `stone` has at least one legal move on `board`.
pub open spec fn has_move(board: Board, stone: Stone) -> bool {
    exists|s: int| is_legal(board.side(stone), board.side(stone.flip_spec()), s)
}

impl Game {
    /// The board always stays consistent.
    #[verifier::type_invariant]
    pub closed spec fn wf(self) -> bool {
        self.board.valid()
    }

    /// The board this game is played on.
    pub closed spec fn spec_board(self) -> Board {
        self.board
    }

    /// The side to move.
    pub closed spec fn spec_turn(self) -> Stone {
        self.next_player
    }

    /// Whether the previous player passed their turn.
    pub closed spec fn spec_passed(self) -> bool {
        self.passed_last_turn
    }

    /// The status the game reports: still in progress unless the previous
    /// player passed and the side to move has no legal move left, in which
    /// case the side with more stones wins, or the game is a draw.
    pub open spec fn status_spec(self) -> Status {
        if self.spec_passed() && !has_move(self.spec_board(), self.spec_turn()) {
            if count_spec(self.spec_board().black()) > count_spec(self.spec_board().white()) {
                Status::Win(Stone::Black)
            } else if count_spec(self.spec_board().white()) > count_spec(
                self.spec_board().black(),
            ) {
                Status::Win(Stone::White)
            } else {
                Status::Draw
            }
        } else {
            Status::Progressing
        }
    }

    /// Returns a game with the standard opening position configured, black
    /// to move and no pass recorded.
    pub fn new() -> (r: Self)
        ensures
            r.spec_board().black() == super::board::BLACK_START_POS,
            r.spec_board().white() == super::board::WHITE_START_POS,
            r.spec_turn() == Stone::Black,
            !r.spec_passed(),
    {
        let board = Board::standard();
        match Game::from_state(board, Stone::Black, false) {
            Ok(game) => game,
            Err(_) => {
                proof {
                    assert(false);
                }
                Game { board, next_player: Stone::Black, passed_last_turn: false }
            },
        }
    }

    /// Returns a game with the specified parameters set, or an error if the
    /// supplied board has overlapping stones.
    pub fn from_state(board: Board, next_player: Stone, passed_last_turn: bool) -> (r: Result<
        Self,
        OthelloError,
    >)
        ensures
            board.valid() ==> (r matches Ok(g) && g.spec_board() == board && g.spec_turn()
                == next_player && g.spec_passed() == passed_last_turn),
            !board.valid() ==> r == Err::<Game, OthelloError>(OthelloError::PiecesOverlapping),
    {
        if board.is_valid() {
            Ok(Self { board, next_player, passed_last_turn })
        } else {
            Err(OthelloError::PiecesOverlapping)
        }
    }

    /// Returns the stone of the current player.
    pub fn current_turn(&self) -> (r: Stone)
        ensures
            r == self.spec_turn(),
    {
        self.next_player
    }

    /// The current player will pass their turn.
    ///
    /// If two players pass in a row the game is considered concluded.  Do
    /// note that it is up to the caller to determine this by calling
    /// [`status`].
    ///
    /// [`status`]: Game::status
    pub fn pass_turn(&mut self)
        ensures
            final(self).spec_board() == old(self).spec_board(),
            final(self).spec_turn() == old(self).spec_turn().flip_spec(),
            final(self).spec_passed(),
    {
        proof {
            use_type_invariant(&*self);
        }
        let board = self.board;
        let next = self.next_player.flip();
        *self = Game { board, next_player: next, passed_last_turn: true };
    }

    /// Reports the status of the game.
    pub fn status(&self) -> (r: Status)
        ensures
            r == self.status_spec(),
    {
        let moves = self.board.moves_for(self.next_player);
        proof {
            if moves@ == 0 {
                assert forall|s: int|
                    !is_legal(
                        self.spec_board().side(self.spec_turn()),
                        self.spec_board().side(self.spec_turn().flip_spec()),
                        s,
                    ) by {
                    lemma_sq_zero(s);
                }
            } else {
                lemma_nonzero_has_sq(moves@);
            }
        }
        let finished = self.passed_last_turn && moves.is_empty();
        if finished {
            let black_stones = self.board.bits_for(Stone::Black).count_set();
            let white_stones = self.board.bits_for(Stone::White).count_set();
            if black_stones > white_stones {
                Status::Win(Stone::Black)
            } else if white_stones > black_stones {
                Status::Win(Stone::White)
            } else {
                Status::Draw
            }
        } else {
            Status::Progressing
        }
    }

    /// Places a stone in the specified position for the side to move and
    /// updates the board accordingly.
    ///
    /// If the move is illegal an error will be returned leaving the game
    /// untouched.
    pub fn play(&mut self, pos: Position) -> (r: Result<(), OthelloError>)
        ensures
            is_legal(
                old(self).spec_board().side(old(self).spec_turn()),
                old(self).spec_board().side(old(self).spec_turn().flip_spec()),
                pos.idx(),
            ) ==> {
                &&& r == Ok::<(), OthelloError>(())
                &&& play_result(
                    old(self).spec_board(),
                    old(self).spec_turn(),
                    pos.idx(),
                    final(self).spec_board(),
                )
                &&& final(self).spec_turn() == old(self).spec_turn().flip_spec()
                &&& !final(self).spec_passed()
            },
            !is_legal(
                old(self).spec_board().side(old(self).spec_turn()),
                old(self).spec_board().side(old(self).spec_turn().flip_spec()),
                pos.idx(),
            ) ==> r == Err::<(), OthelloError>(OthelloError::IllegalMove) && *final(self) == *old(
                self,
            ),
    {
        proof {
            use_type_invariant(&*self);
        }
        if self.board.is_legal_move(self.next_player, pos) {
            let mut board = self.board;
            board.play(self.next_player, pos);
            let next = self.next_player.flip();
            *self = Game { board, next_player: next, passed_last_turn: false };
            Ok(())
        } else {
            Err(OthelloError::IllegalMove)
        }
    }

    /// Returns a copy of the internal board used in this game.
    pub fn board(&self) -> (r: Board)
        ensures
            r == self.spec_board(),
            r.valid(),
    {
        proof {
            use_type_invariant(self);
        }
        self.board
    }

    /// Returns whether or not the previous player passed their turn.
    pub fn passed_last_turn(&self) -> (r: bool)
        ensures
            r == self.spec_passed(),
    {
        self.passed_last_turn
    }

    /// Checks if the supplied position is a legal move for the current
    /// player.
    pub fn is_legal_move(&self, pos: Position) -> (r: bool)
        ensures
            r == is_legal(
                self.spec_board().side(self.spec_turn()),
                self.spec_board().side(self.spec_turn().flip_spec()),
                pos.idx(),
            ),
    {
        proof {
            use_type_invariant(self);
        }
        self.board.is_legal_move(self.next_player, pos)
    }

    /// Calculates and returns the set of all legal moves for the current
    /// player.
    pub fn moves(&self) -> (r: Bitboard)
        ensures
            forall|s: int|
                #[trigger] sq(r@, s) == is_legal(
                    self.spec_board().side(self.spec_turn()),
                    self.spec_board().side(self.spec_turn().flip_spec()),
                    s,
                ),
    {
        self.board.moves_for(self.next_player)
    }

    /// Returns a bitboard representing all stones for the specified player.
    pub fn bits_for(&self, stone: Stone) -> (r: Bitboard)
        ensures
            r@ == self.spec_board().side(stone),
    {
        self.board.bits_for(stone)
    }

    /// Returns a bitboard representing the set of all empty squares on the
    /// board.
    pub fn empty_squares(&self) -> (r: Bitboard)
        ensures
            r@ == self.spec_board().empty_mask(),
    {
        self.board.empty_squares()
    }

    /// Returns a struct for customizing the display of Othello boards.
    pub fn display(&self) -> (r: BoardDisplay)
        ensures
            r.spec_board() == self.spec_board(),
            r.spec_stone() is None,
            r.spec_format() is Standard,
    {
        self.board.display()
    }

    /// Queries the board at the specified position for the presence of a
    /// stone.
    pub fn stone_at(&self, pos: Position) -> (r: Option<Stone>)
        ensures
            r == self.spec_board().stone_at_spec(pos.idx()),
    {
        self.board.stone_at(pos)
    }
}

impl Default for Game {
    /// Returns a game with the standard opening position configured.
    fn default() -> (r: Self)
        ensures
            r.spec_board().black() == super::board::BLACK_START_POS,
            r.spec_board().white() == super::board::WHITE_START_POS,
            r.spec_turn() == Stone::Black,
            !r.spec_passed(),
    {
        Self::new()
    }
}

} // verus!
