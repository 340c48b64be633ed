//! Rules of standard chess: positions, move generation, move application,
//! legality and the text form of a position.
//!
//! A board is a vector of 64 pieces, a8 first and h1 last. Beside the board a
//! position has a side to move, an en-passant target, the squares of the two
//! kings and four castling rights.
//!
//! - [`board`]: pieces, moves and squares.
//! - [`geometry`]: directions and distances to the edge of the board.
//! - [`apply`]: the position after a move.
//! - [`movegen`]: the moves of a piece by its way of moving.
//! - [`reach`]: the squares that sliding and leaping pieces reach.
//! - [`legal`]: the moves that keep the mover's king safe, and the side that
//!   has none.
//! - [`sides`]: what the moves of a side depend on.
//! - [`position`]: what stays true of a position from move to move.
//! - [`notation`]: the names of squares.
//! - [`fen`]: reading and writing a position as text.
//! - [`input`]: reading what a player has typed.
//! - [`turn`]: the choices of a turn.
//! - [`render`]: the picture of a board.

pub mod board;
pub mod geometry;
pub mod apply;
pub mod movegen;
pub mod reach;
pub mod legal;
pub mod sides;
pub mod position;
pub mod notation;
pub mod fen;
pub mod input;
pub mod turn;
pub mod render;
