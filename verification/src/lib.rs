//! An interactive terminal maze game, as a verified library.
//!
//! The library owns the game's logic: randomized maze generation over a
//! logical grid of wall flags, its expansion into a printable display grid,
//! the movement state machine with its validity rules, the keystroke
//! mapping that drives it, and the layout arithmetic of the renderer.
//! Terminal input, ANSI output and the thread that redraws the screen live
//! outside the library and only exchange plain values with it.

pub mod game;
pub mod maze;
pub mod rng;
pub mod input;
pub mod display;
pub mod banner;
