//! Chess game archives: a character-driven archive parser, a position model
//! with a move-application engine, and a position scanner built on both.

pub mod error;
pub mod text;
pub mod position;
pub mod game;
pub mod fen;
pub mod filter;
pub mod parser;
pub mod writer;
pub mod scanner;
pub mod tag;
pub mod round_trip;
