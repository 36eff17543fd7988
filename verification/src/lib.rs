//! Validating decoder for chess-board rendering requests.
//!
//! Raw key/value input (query parameters or a structured body) is parsed
//! into a strongly validated request model: board positions in FEN,
//! moves in UCI coordinate notation, squares in algebraic notation,
//! bounded player names, and an orientation with its coordinate
//! transform for the renderer.

use vstd::prelude::*;

pub mod board;
pub mod fen;
pub mod request;
pub mod text;
pub mod uci;

pub use board::{Color, Orientation, Piece, Role, Square, maybe_square};
pub use fen::{CastlingRights, Position};
pub use request::{FrameParams, PlayerName, RequestBody, RequestFrame, RequestParams};
pub use uci::{Move, maybe_move};

verus! {

/// A validation failure while decoding a rendering request.
#[derive(Clone, Copy, Debug, PartialEq, Eq, Structural)]
pub enum DecodeError {
    /// The board-position field is not syntactically valid FEN.
    MalformedPosition,
    /// The move field is not a UCI coordinate move nor the null move.
    MalformedMove,
    /// The square field is not a two-character algebraic square.
    MalformedSquare,
    /// The orientation field is neither "white" nor "black".
    MalformedOrientation,
    /// A player name exceeds the 100-byte capacity.
    NameTooLong,
    /// A frame of a structured body omits its required position field.
    MissingRequiredField,
}

} // verus!

