pub mod board;
pub mod game;
pub mod render;
pub mod replay;
pub mod rng;
