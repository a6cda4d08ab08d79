//! Reconnaissance Blind Chess (RBC) game logic.
//!
//! The crate holds the RBC rules layer: board state, FEN reading and
//! writing, move-request generation from a player's own-piece view, move
//! revision against the true board, capture handling, sensing, turn
//! history and adjudication. Every function states its behaviour in its
//! contract; [`laws`] collects the properties that span several calls.
use vstd::prelude::*;

mod text;
pub mod bits;
pub mod types;
pub mod attack_tables;
pub mod position;
pub mod fen;
pub mod rules;
pub mod game;
pub mod laws;
mod fen_round_trip;

pub use game::{Game, GameSnapshot};
pub use position::{CastlingRights, Position};
pub use types::{
    STANDARD_BACK_RANK,
    Capture, CastlingPolicy, Color, DrawReason, Error, GameConfig, GameResult, GameStatus,
    HistoryEntry, Move, MoveOutcome, MoveStatus, Piece, PieceKind, SenseAction, SensePolicy,
    SenseResult, SenseShape, SenseToken, SenseTokenId, SensedSquare, Square, WinReason,
};

verus! {

/// Crate version.
pub const VERSION: &'static str = "0.1.0";

} // verus!
