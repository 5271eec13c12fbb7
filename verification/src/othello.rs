//! Core structures and functions for playing Othello.

pub mod bits;
pub mod laws;
pub mod rules;
mod bitboard;
mod board;
mod display;
mod game;
mod position;
mod stone;

pub use bitboard::Bitboard;
pub use board::Board;
pub use board::BoardError;
pub use display::BoardDisplay;
pub use display::Format;
pub use game::Game;
pub use game::OthelloError;
pub use game::Status;
pub use position::Position;
pub use position::PositionError;
pub use stone::Stone;
