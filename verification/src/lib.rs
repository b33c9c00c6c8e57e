//! A chess position library.
//!
//! The library owns two things: the position representation (a 64-square
//! board of optional colored pieces together with the side to move, castling
//! rights, en-passant target, halfmove clock and fullmove counter) and the
//! bidirectional codec between positions and Forsyth-Edwards Notation (FEN)
//! strings.
//!
//! The square-indexing convention is fixed here once and for all: index 0 is
//! rank 8 file a (the first square of the FEN placement field), index 7 is
//! rank 8 file h, index 8 is rank 7 file a, and index 63 is rank 1 file h.
//!
//! Decoding rejects malformed input with a typed [`fen::FenError`]; encoding
//! is total on well-formed positions. The codec's behaviour is specified by
//! the spec-level model in [`fen`], and the round-trip and invariant laws are
//! proved in [`laws`].

pub mod board;
pub mod decode;
pub mod encode;
pub mod fen;
pub mod game;
pub mod laws;
pub mod pieces;

pub use board::Board;
pub use board::Square;
pub use fen::FenError;
pub use game::CastlingRights;
pub use game::GameState;
pub use pieces::ChessPiece;
pub use pieces::Color;
pub use pieces::Piece;
