//! An Othello engine built on 64-bit bitboards.
//!
//! The board is a pair of bitboards, one per side.  Legal-move generation and
//! capture resolution are directional flood fills over those masks, and every
//! operation carries a contract relating it to a square-by-square reading of
//! the board.
//!
//! Two abstraction levels are offered:
//!
//! - [`othello::Game`] — rule-checked, turn-aware game logic.
//! - [`othello::Board`] — lower-level board operations for engines.

pub mod direction;
pub mod othello;
