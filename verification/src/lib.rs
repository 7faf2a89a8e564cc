pub mod board;
pub mod game;
pub mod piece;
pub mod rules;
pub mod symmetry;
