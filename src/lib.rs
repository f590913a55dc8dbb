//! A small raycasting engine: a grid map with a colour palette, a recursive
//! maze generator that carves walls into it, and a fixed-point ray walker that
//! turns the map into first-person wall columns.

pub mod grid;
pub mod maze;
pub mod source;
pub mod raycast;
pub mod render;
