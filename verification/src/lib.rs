pub mod bits;
pub mod geometry;
pub mod binary_mask;
pub mod magic;
pub mod board;
pub mod rules;
pub mod get_moves;
pub mod make_move;
pub mod notation;
pub mod laws;
