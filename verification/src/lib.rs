//! A small terminal-emulator core: a cursor confined to an area, a grid of
//! character cells, a performer that applies printed characters and
//! control functions to both, and the mapping from key presses to input.

pub mod cursor;
pub mod input;
pub mod performer;
pub mod screen;
