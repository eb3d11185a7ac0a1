//! The rules of Minesweeper: a grid of cells, lazy mine placement that keeps
//! the first opened cell safe, cascading reveal, flagging and win detection,
//! together with the key-driven controller that sits on top of the board.
//!
//! Every function carries a contract over a mathematical model of the board
//! (`BoardView`), and the contracts are proved. What is taken on trust of
//! the `rand` crate, which draws the places of the mines, stands in `random`.

pub mod args;
pub mod board;
pub mod cell;
pub mod chord;
pub mod config;
pub mod controller;
pub mod counting;
pub mod digging;
pub mod facts;
pub mod flood;
pub mod game_state;
pub mod laws;
pub mod laying;
pub mod mines;
pub mod model;
pub mod random;
pub mod ring;
