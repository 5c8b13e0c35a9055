//! A chess rules engine: the board and its positions, their text (FEN), what a side
//! attacks, the legal moves, the moves themselves and how a game stands.

pub mod fen_laws;
pub mod game_data;
pub mod logic;
pub mod moves;
pub mod parser;
pub mod position_set;
pub mod protocol;
pub mod protocol_laws;
pub mod render;
pub mod repetition;
pub mod text;
pub mod threat_laws;
pub mod threats;
pub mod undo;
