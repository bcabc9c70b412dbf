//! Turn management, pointer hit-testing and move coordination for a game of Hex
//! played by a human against a computer opponent.
pub mod geometry;
pub mod session;
pub mod interaction;
