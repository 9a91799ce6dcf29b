//! The turn controller: one move in, the next state of the game out.

use crate::board::{
    empty_grid, make_board, with_cell, Board, GameError, Grid, Intersection, Position,
};
use crate::input::InputError;
use crate::rules::{_game_get_winner, available, game_is_tie, is_full, position_available, winner};
use vstd::arithmetic::div_mod::{lemma_mod_self_0, lemma_small_mod};
use vstd::prelude::*;

verus! {

/// The model of a game that awaits a move.
pub struct GameView {
    /// The board as it stands.
    pub grid: Grid,
    /// The number of players, at least one.
    pub players: usize,
    /// The player whose move is awaited, below `players`.
    pub active: usize,
}

/// The model of what a turn leads to.
pub enum TurnView {
    /// The move was refused; the game stands as before and the same player
    /// is to move.
    MoveRejected(GameView, GameError),
    /// The move was applied and the next player is to move.
    AwaitingMove(GameView),
    /// The move was applied and gave this player a winning run.
    Won(Grid, usize),
    /// The move was applied and filled the board with no winner.
    Tied(Grid),
}

/// The player who moves after `active` when `players` take turns in cyclic
/// order.
pub open spec fn next_player(active: usize, players: usize) -> usize {
    ((active + 1) % (players as int)) as usize
}

/// The turn passes to the next higher player, and from the last player
/// back to player 0; it never leaves the players.
pub proof fn lemma_next_player_cycles(active: usize, players: usize)
    requires
        active < players,
    ensures
        next_player(active, players) < players,
        active + 1 < players ==> next_player(active, players) == active + 1,
        active + 1 == players ==> next_player(active, players) == 0,
{
    if active + 1 < players {
        lemma_small_mod((active + 1) as nat, players as nat);
    } else {
        lemma_mod_self_0(players as int);
    }
}

/// The transition of the turn controller. Input from which no move could
/// be read, a move that lies off the board and a move to an occupied cell
/// are refused and change nothing. Any other move marks its cell for the
/// active player; then a winner ends the game, else a full board ends it
/// in a tie, else the turn passes to the next player in cyclic order.
pub open spec fn next_turn(s: GameView, mv: Result<Position, InputError>) -> TurnView {
    match mv {
        Err(e) => TurnView::MoveRejected(s, GameError::MalformedInput(e)),
        Ok(pos) => match available(s.grid, pos.0 as int, pos.1 as int) {
            Err(e) => TurnView::MoveRejected(s, e),
            Ok(false) => TurnView::MoveRejected(s, GameError::PositionTaken),
            Ok(true) => {
                let grid = with_cell(
                    s.grid,
                    pos.0 as int,
                    pos.1 as int,
                    Intersection::Player(s.active),
                );
                match winner(grid) {
                    Some(w) => TurnView::Won(grid, w),
                    None => if is_full(grid) {
                        TurnView::Tied(grid)
                    } else {
                        TurnView::AwaitingMove(
                            GameView {
                                grid,
                                players: s.players,
                                active: next_player(s.active, s.players),
                            },
                        )
                    },
                }
            },
        },
    }
}

/// A game that awaits a move: the board, the number of players and the
/// player whose turn it is.
#[derive(Debug, PartialEq, Eq)]
pub struct Game {
    board: Board,
    num_players: usize,
    active: usize,
}

/// What a turn leads to. The two terminal outcomes hand the final board
/// out; the other two hand the game back for the next move.
#[derive(Debug, PartialEq, Eq)]
pub enum Turn {
    /// The move was refused for the given reason; the game is unchanged.
    MoveRejected(Game, GameError),
    /// The move was applied; the game awaits the next player's move.
    AwaitingMove(Game),
    /// The move was applied and the given player has won.
    Won(Board, usize),
    /// The move was applied and the board is full with no winner.
    Tied(Board),
}

impl Turn {
    /// The model of this outcome.
    pub open spec fn view(&self) -> TurnView {
        match *self {
            Turn::MoveRejected(game, reason) => TurnView::MoveRejected(game@, reason),
            Turn::AwaitingMove(game) => TurnView::AwaitingMove(game@),
            Turn::Won(board, player) => TurnView::Won(board@, player),
            Turn::Tied(board) => TurnView::Tied(board@),
        }
    }
}

impl Game {
    /// The model of this game.
    pub closed spec fn view(&self) -> GameView {
        GameView { grid: self.board@, players: self.num_players, active: self.active }
    }

    #[verifier::type_invariant]
    spec fn active_is_a_player(&self) -> bool {
        self.active < self.num_players
    }

    /// Starts a game on an empty board of side `board_size`, with player 0
    /// to move. A board of side zero does not exist.
    pub fn new(board_size: usize, num_players: usize) -> (r: Result<Game, GameError>)
        requires
            num_players > 0,
        ensures
            board_size == 0 ==> r is Err && r->Err_0 == GameError::InvalidSize,
            board_size > 0 ==> r is Ok && r->Ok_0@ == (GameView {
                grid: empty_grid(board_size as nat),
                players: num_players,
                active: 0,
            }),
    {
        match make_board(board_size) {
            Ok(board) => Ok(Game { board, num_players, active: 0 }),
            Err(e) => Err(e),
        }
    }

    /// The board as it stands.
    pub fn board(&self) -> (b: &Board)
        ensures
            b@ == self@.grid,
    {
        &self.board
    }

    /// The number of players.
    pub fn num_players(&self) -> (n: usize)
        ensures
            n == self@.players,
            n > 0,
    {
        proof {
            use_type_invariant(self);
        }
        self.num_players
    }

    /// The player whose move is awaited.
    pub fn active_player(&self) -> (p: usize)
        ensures
            p == self@.active,
            p < self@.players,
    {
        proof {
            use_type_invariant(self);
        }
        self.active
    }

    /// Takes one move, or the reason why none could be read, and returns
    /// what the turn leads to.
    pub fn play(self, mv: Result<Position, InputError>) -> (t: Turn)
        ensures
            t@ == next_turn(self@, mv),
    {
        proof {
            use_type_invariant(&self);
        }
        let pos = match mv {
            Ok(pos) => pos,
            Err(e) => {
                return Turn::MoveRejected(self, GameError::MalformedInput(e));
            },
        };
        match position_available(&pos, &self.board) {
            Err(e) => Turn::MoveRejected(self, e),
            Ok(false) => Turn::MoveRejected(self, GameError::PositionTaken),
            Ok(true) => {
                let Game { mut board, num_players, active } = self;
                let _ = board.set(pos.0, pos.1, Intersection::Player(active));
                match _game_get_winner(&board) {
                    Some(w) => Turn::Won(board, w),
                    None => if game_is_tie(&board) {
                        Turn::Tied(board)
                    } else {
                        let next = (active + 1) % num_players;
                        Turn::AwaitingMove(Game { board, num_players, active: next })
                    },
                }
            },
        }
    }
}

} // verus!
