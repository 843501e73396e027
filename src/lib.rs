//! Rule engines for classic board games: Minesweeper, Tic-Tac-Toe, Connect Four,
//! Gomoku and Reversi.

pub mod connect_four;
pub mod gomoku;
pub mod grid;
pub mod minesweeper;
pub mod reversi;
pub mod tictactoe;
