//! Game-state engine for a five-in-a-row connection game on a square board.
//!
//! The crate holds the board, the rule that decides whether a move is legal,
//! the scan that finds a winning run or a full board, the turn controller
//! that ties them together, and the text forms of a move and of a board.
//! Every function is verified against a contract stated over a mathematical
//! model of the board: a sequence of rows, each a sequence of intersections.

pub mod board;
pub mod input;
pub mod render;
pub mod rules;
pub mod turn;

pub use board::{make_board, Board, GameError, Intersection, Position};
pub use input::{is_white_space, parse_position, parse_position_part, InputError};
pub use render::board_to_string;
pub use rules::{
    _game_get_winner, check_winning, extract_run, game_is_tie, position_available, Direction,
    WINNING_LEN,
};
pub use turn::{Game, Turn};
