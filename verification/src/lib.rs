//! A verified chess rules engine: board representation, pseudo-legal and
//! legal move generation, attack detection, move application with castling,
//! en passant and promotion, FEN encoding and decoding, and game-level
//! bookkeeping (check, checkmate, stalemate, threefold repetition).

pub mod apply;
pub mod attack;
pub mod board;
pub mod fen;
pub mod game;
pub mod laws;
pub mod modals;
pub mod moves;
pub mod pgn;
pub mod pieces;
pub mod position;
pub mod strutil;
pub mod ui;

pub use apply::MoveError;
pub use board::Board;
pub use fen::FenError;
pub use game::CastlingSide;
pub use game::GameState;
pub use game::Move;
pub use game::MoveRecord;
pub use pieces::Color;
pub use pieces::Piece;
pub use pieces::PieceType;
pub use position::Position;
pub use position::PositionError;
