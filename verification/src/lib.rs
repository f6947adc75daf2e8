//! A square-centric chess engine.
//!
//! The board is an array of 64 squares. The engine reads and writes
//! positions as text, generates the pseudo-legal moves of the side to move,
//! makes and unmakes moves on one board, counts perft leaves, evaluates
//! material and searches to a fixed depth with negamax and alpha-beta
//! pruning.
//!
//! The moves are pseudo-legal: they follow the movement of the pieces and
//! the occupancy of the board, and whether a move leaves the mover's own
//! king attacked is not looked at. The engine generates no castling moves,
//! no promotions, and knows no check, mate or draw.
//!
//! - [`piece`]: colours, kinds of pieces, and what a square holds.
//! - [`geometry`]: files, ranks, directions and the distances to the edge.
//! - [`board`]: the board, its model, moves, and making and unmaking them.
//! - [`movegen`]: the move generators; [`movegen_laws`]: what holds of the
//!   moves.
//! - [`perft`]: the leaf count.
//! - [`eval`]: the material evaluation and its symmetry.
//! - [`search`]: the searches; [`search_laws`]: what holds of their results.
//! - [`fen`]: the grammar of the position text and its reader;
//!   [`fen_text`]: the writer; [`fen_laws`]: the round trip.
//! - [`render`]: the board and its moves as text for a reader.
//! - [`canvas`]: from a point of the board's picture to a square.

pub mod piece;
pub mod geometry;
pub mod board;
pub mod movegen;
pub mod movegen_laws;
pub mod perft;
pub mod eval;
pub mod search;
pub mod search_laws;
pub mod fen;
pub mod fen_text;
pub mod fen_laws;
pub mod render;
pub mod canvas;
