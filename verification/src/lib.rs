//! Conway's Game of Life and a generalised life-like automaton, with the
//! decisions of the command-line program that runs them.
pub mod convolution;
pub mod game_of_life;
pub mod gameoflife;
pub mod grid;
pub mod neighbors;
pub mod arguments;
pub mod presentation;
