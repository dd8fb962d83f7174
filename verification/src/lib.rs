//! Procedural drawings for a shared pixel canvas: discs, growing worm trees,
//! dithering and the byte layout of the canvas commands.
//!
//! Worm trees are grown over any [`tree::Motion`]; [`grid::Stride`] is one
//! that moves on the grid in whole numbers.

pub mod circle;
pub mod dice;
pub mod disc;
pub mod dither;
pub mod firework;
pub mod grid;
pub mod laws;
pub mod magnet;
pub mod mandel;
pub mod paper;
pub mod primitive;
pub mod protocol;
pub mod rows;
pub mod stock;
pub mod text;
pub mod tree;
