//! A Stratego engine.
//!
//! Two players move ranked pieces over a board of 10×10 cells with two
//! lakes. The engine holds the board as a list of pieces and a bitmap for
//! each player, generates and validates moves, resolves fights, applies
//! turns, and runs whole games between two policies.
//!
//! Every function states what it computes, and the statements are proved:
//! that the lists and the bitmaps always agree, that the move generator and
//! the validator accept the same actions, that the rules look the same from
//! both sides of the board, that no fight spares both pieces.

pub mod boardbitmap;
pub mod bot;
pub mod game;
pub mod game_coordinator;
pub mod json_runner;
pub mod reservoir_sample;
