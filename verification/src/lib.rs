//! A single-player dice game of chance.
//!
//! A player rolls a hand of dice. Every face rolled adds to the score. The odd
//! faces of a round, less its even faces, give the number of dice in the next
//! hand; the game is over once that number is no longer positive.

pub mod dice;
pub mod find_files;
pub mod game;
pub mod menu;
pub mod scores;
pub mod text;
