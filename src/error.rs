//! The engine's error kinds.

use vstd::prelude::*;

verus! {

/// The ways an operation of the engine can fail.
#[derive(Clone, Copy, PartialEq, Eq, Structural, Debug)]
pub enum ChessError {
    /// Malformed algebraic text, or a rank or file outside the board.
    InvalidCoordinate,
    /// A team name other than `White` or `Black`.
    InvalidTeamName,
    /// A piece-kind name other than the six kinds.
    InvalidPieceKindName,
    /// The target square is not among the legal moves of the origin square.
    InvalidMove,
    /// A side has no king on the board, so check cannot be decided.
    MissingKing,
    /// Promotion was asked for while no pawn stands on its last rank.
    NoPromotablePawn,
    /// Snapshot text that does not decode to a game.
    InvalidSnapshot,
}

} // verus!
