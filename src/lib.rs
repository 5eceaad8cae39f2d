//! A chess rules engine: board representation, pseudo-legal move generation,
//! legality filtering, check and checkmate detection, the move-application
//! state transition, promotion, a snapshot codec, and the room bookkeeping of
//! the relay that carries moves between two remote players.

pub mod error;
pub mod text;
pub mod piece;
pub mod square;
pub mod game;
pub mod movegen;
pub mod legality;
pub mod transition;
pub mod codec;
pub mod relay;
