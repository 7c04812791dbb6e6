//! Rules and state of a gravity-drop connection game (Connect Four and its
//! width/height variants): the board, win and draw detection, and the game
//! state machine with move application and reversal.

pub mod board;
pub mod encode;
pub mod game;
pub mod grid;
pub mod moves;
pub mod outcome;
pub mod player;
pub mod position;
pub mod record;
pub mod state;
pub mod text;
