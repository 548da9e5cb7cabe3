//! Deterministic core of a snake game: a fixed-size grid, a growing and
//! moving snake, food placement and fatality detection. Rendering and input
//! polling are left to the host, which drives the board through three entry
//! points: a fixed-rate tick, a key press, and a repaint request.

pub mod coord;
pub mod snake;
pub mod board;
