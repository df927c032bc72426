pub mod board;
pub mod laws;
pub mod tetrimino;
