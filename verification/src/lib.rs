//! A chess rules engine: board representation, legal-move validation and
//! generation (including castling, en passant and promotion), check and
//! checkmate/stalemate detection, and parsers for long and short algebraic
//! notation as well as textual board diagrams.
pub mod board;
pub mod boardtext;
pub mod game;
pub mod laws;
pub mod movegen;
pub mod moves;
pub mod pos;
pub mod shortnote;
