//! Maze model and shortest-path solver for a tile maze with keys and gates.
//!
//! `maze` classifies cells and answers neighbour queries, `solver` searches the space of
//! (cell, key inventory) states for a shortest legal route, `game` holds the live state that a
//! frame loop drives, and `spritesheet` turns animation descriptions into frame tables.
pub mod game;
pub mod maze;
pub mod solver;
pub mod spritesheet;
