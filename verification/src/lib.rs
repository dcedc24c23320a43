//! A first-block solver for the 3x3x3 cube in the Roux method: a sticker
//! model of the cube, piece-subset coordinates, transition and pruning tables
//! and an iterative-deepening search over them.

pub mod cmll;
pub mod cube;
pub mod first_block;
pub mod orientations;
pub mod proper;
pub mod solve;
pub mod solver;
