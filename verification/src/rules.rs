//! The rules of the game: when a move is legal, when a run of consecutive
//! marks wins, and when the board is full.

use crate::board::{
    empty_grid, in_bounds, square, with_cell, Board, GameError, Grid, Intersection, Position,
};
use vstd::prelude::*;

verus! {

/// The number of consecutive marks of one player that wins the game.
pub const WINNING_LEN: usize = 5;

/// The four orientations in which a run is looked for, in the order in
/// which they are tried at each origin.
#[derive(Clone, Copy, PartialEq, Eq, Debug, Structural)]
pub enum Direction {
    /// Along a row, column increasing.
    Horizontal,
    /// Along a column, row increasing.
    Vertical,
    /// Row decreasing, column increasing.
    DiagonalUp,
    /// Row increasing, column increasing.
    DiagonalDown,
}

impl Direction {
    /// The place of this direction in the scan order at one origin.
    pub open spec fn rank(self) -> int {
        match self {
            Direction::Horizontal => 0,
            Direction::Vertical => 1,
            Direction::DiagonalUp => 2,
            Direction::DiagonalDown => 3,
        }
    }

    /// The coordinates reached from `(row, col)` after `k` steps in this
    /// direction.
    pub open spec fn advance(self, row: int, col: int, k: int) -> (int, int) {
        match self {
            Direction::Horizontal => (row, col + k),
            Direction::Vertical => (row + k, col),
            Direction::DiagonalUp => (row - k, col + k),
            Direction::DiagonalDown => (row + k, col + k),
        }
    }

    /// The position `k` steps from `origin` in this direction, where both
    /// of its coordinates are machine integers.
    pub fn step(self, origin: Position, k: usize) -> (p: Option<Position>)
        ensures
            match p {
                Some(q) => (q.0 as int, q.1 as int) == self.advance(
                    origin.0 as int,
                    origin.1 as int,
                    k as int,
                ),
                None => {
                    let (row, col) = self.advance(origin.0 as int, origin.1 as int, k as int);
                    row < 0 || row > usize::MAX || col > usize::MAX
                },
            },
    {
        let row = match self {
            Direction::Horizontal => Some(origin.0),
            Direction::Vertical | Direction::DiagonalDown => origin.0.checked_add(k),
            Direction::DiagonalUp => origin.0.checked_sub(k),
        };
        let col = match self {
            Direction::Vertical => Some(origin.1),
            _ => origin.1.checked_add(k),
        };
        match (row, col) {
            (Some(r), Some(c)) => Some(Position(r, c)),
            _ => None,
        }
    }
}

/// The cell of `g` at `(row, col)`, and `Empty` for coordinates that
/// address no cell: the board is padded with empty cells on every side.
pub open spec fn cell_or_empty(g: Grid, row: int, col: int) -> Intersection {
    if in_bounds(g, row, col) {
        g[row][col]
    } else {
        Intersection::Empty
    }
}

/// The `WINNING_LEN` cells that start at `(row, col)` and follow `d`.
pub open spec fn run_at(g: Grid, row: int, col: int, d: Direction) -> Seq<Intersection> {
    Seq::new(
        WINNING_LEN as nat,
        |k: int|
            {
                let (r, c) = d.advance(row, col, k);
                cell_or_empty(g, r, c)
            },
    )
}

/// The player who owns every cell of `run`, if there is one: the first
/// cell is occupied and all the others hold the same player.
pub open spec fn run_winner(run: Seq<Intersection>) -> Option<usize> {
    if run.len() > 0 && run[0] is Player && forall|j: int|
        0 <= j < run.len() ==> #[trigger] run[j] == run[0] {
        Some(run[0]->Player_0)
    } else {
        None
    }
}

/// The run that starts at `(row, col)` and follows `d` is a winning run.
pub open spec fn wins_at(g: Grid, row: int, col: int, d: Direction) -> bool {
    run_winner(run_at(g, row, col, d)) is Some
}

/// The scan visits `(r1, c1, d1)` strictly before `(r2, c2, d2)`: origins
/// in row-major order, and the directions by rank at each origin.
pub open spec fn scans_before(
    r1: int,
    c1: int,
    d1: Direction,
    r2: int,
    c2: int,
    d2: Direction,
) -> bool {
    r1 < r2 || (r1 == r2 && (c1 < c2 || (c1 == c2 && d1.rank() < d2.rank())))
}

/// The run at `(row, col, d)` wins and no run that the scan visits before
/// it does.
pub open spec fn first_win(g: Grid, row: int, col: int, d: Direction) -> bool {
    &&& wins_at(g, row, col, d)
    &&& forall|r: int, c: int, e: Direction|
        scans_before(r, c, e, row, col, d) ==> !#[trigger] wins_at(g, r, c, e)
}

/// The winner of `g`: the owner of the first winning run in scan order, or
/// nobody when no run wins.
pub open spec fn winner(g: Grid) -> Option<usize> {
    if exists|r: int, c: int, d: Direction| first_win(g, r, c, d) {
        let (r, c, d) = choose|r: int, c: int, d: Direction| first_win(g, r, c, d);
        run_winner(run_at(g, r, c, d))
    } else {
        None
    }
}

/// Every cell of `g` is occupied.
pub open spec fn is_full(g: Grid) -> bool {
    forall|r: int, c: int| in_bounds(g, r, c) ==> #[trigger] g[r][c] is Player
}

/// The coordinates of the empty cells of `g`.
pub open spec fn empty_cells(g: Grid) -> Set<(int, int)> {
    Set::new(|at: (int, int)| in_bounds(g, at.0, at.1) && g[at.0][at.1] is Empty)
}

/// Whether a move at `(row, col)` is legal on `g`: the cell must exist,
/// and then the move is legal exactly if the cell is empty.
pub open spec fn available(g: Grid, row: int, col: int) -> Result<bool, GameError> {
    if in_bounds(g, row, col) {
        Ok(g[row][col] is Empty)
    } else {
        Err(GameError::OutOfBounds)
    }
}

/// Decides whether `pos` is free for a move on `board`. A position
/// outside the board is an error, never a silent `false`.
pub fn position_available(pos: &Position, board: &Board) -> (r: Result<bool, GameError>)
    ensures
        r == available(board@, pos.0 as int, pos.1 as int),
        r is Err <==> pos.0 >= board@.len() || pos.1 >= board@.len(),
{
    match board.get(pos.0, pos.1) {
        Ok(cell) => Ok(cell == Intersection::Empty),
        Err(e) => Err(e),
    }
}

/// Judges one extracted run: the player who occupies all of its cells, if
/// any.
pub fn check_winning(intersections: &[Intersection; WINNING_LEN]) -> (w: Option<usize>)
    ensures
        w == run_winner(intersections@),
{
    let prev_id = match intersections[0] {
        Intersection::Player(prev_id) => prev_id,
        _ => {
            return None;
        },
    };
    let mut j: usize = 1;
    while j < WINNING_LEN
        invariant
            1 <= j <= WINNING_LEN,
            intersections@[0] == Intersection::Player(prev_id),
            forall|i: int| 0 <= i < j ==> #[trigger] intersections@[i] == intersections@[0],
        decreases WINNING_LEN - j,
    {
        if intersections[j] != Intersection::Player(prev_id) {
            return None;
        }
        j = j + 1;
    }
    Some(prev_id)
}

/// Extracts the run of `WINNING_LEN` cells that starts at `origin` and
/// follows `d`. A slot whose coordinates fall off the board is `Empty`.
pub fn extract_run(board: &Board, origin: Position, d: Direction) -> (run: [Intersection;
    WINNING_LEN])
    ensures
        run@ == run_at(board@, origin.0 as int, origin.1 as int, d),
{
    let mut run = [Intersection::Empty;WINNING_LEN];
    let mut k: usize = 0;
    while k < WINNING_LEN
        invariant
            k <= WINNING_LEN,
            forall|i: int|
                0 <= i < k ==> #[trigger] run@[i] == run_at(
                    board@,
                    origin.0 as int,
                    origin.1 as int,
                    d,
                )[i],
        decreases WINNING_LEN - k,
    {
        let cell = match d.step(origin, k) {
            Some(p) => match board.get(p.0, p.1) {
                Ok(cell) => cell,
                Err(_) => Intersection::Empty,
            },
            None => Intersection::Empty,
        };
        proof {
            board.lemma_fits();
        }
        run[k] = cell;
        k = k + 1;
    }
    run
}

/// The owner of the first winning run among the four that start at
/// `(row, col)`, the directions taken by rank.
spec fn origin_winner(g: Grid, row: int, col: int) -> Option<usize> {
    if wins_at(g, row, col, Direction::Horizontal) {
        run_winner(run_at(g, row, col, Direction::Horizontal))
    } else if wins_at(g, row, col, Direction::Vertical) {
        run_winner(run_at(g, row, col, Direction::Vertical))
    } else if wins_at(g, row, col, Direction::DiagonalUp) {
        run_winner(run_at(g, row, col, Direction::DiagonalUp))
    } else {
        run_winner(run_at(g, row, col, Direction::DiagonalDown))
    }
}

/// Every cell of a winning run lies on the board and holds the winner.
/// So a run that leaves the board is never a winning run, whatever the
/// board holds.
pub proof fn lemma_winning_run_stays_on_board(g: Grid, row: int, col: int, d: Direction, k: int)
    requires
        wins_at(g, row, col, d),
        0 <= k < WINNING_LEN,
    ensures
        in_bounds(g, d.advance(row, col, k).0, d.advance(row, col, k).1),
        Some(g[d.advance(row, col, k).0][d.advance(row, col, k).1]->Player_0) == run_winner(
            run_at(g, row, col, d),
        ),
        g[d.advance(row, col, k).0][d.advance(row, col, k).1] is Player,
{
    let run = run_at(g, row, col, d);
    assert(run[k] == run[0]);
}

/// The first winning run in scan order decides the winner.
pub proof fn lemma_first_win_decides(g: Grid, row: int, col: int, d: Direction)
    requires
        first_win(g, row, col, d),
    ensures
        winner(g) == run_winner(run_at(g, row, col, d)),
{
    let (r, c, e) = choose|r: int, c: int, e: Direction| first_win(g, r, c, e);
    assert(!scans_before(r, c, e, row, col, d) && !scans_before(row, col, d, r, c, e));
    assert(e == d);
}

/// A grid on which no run wins has no winner.
pub proof fn lemma_no_win_no_winner(g: Grid)
    requires
        forall|r: int, c: int, d: Direction| !#[trigger] wins_at(g, r, c, d),
    ensures
        winner(g) is None,
{
}

/// A grid without an occupied cell has no winner.
pub proof fn lemma_unplayed_grid_has_no_winner(g: Grid)
    requires
        forall|r: int, c: int| in_bounds(g, r, c) ==> #[trigger] g[r][c] is Empty,
    ensures
        winner(g) is None,
{
    assert forall|r: int, c: int, d: Direction| !#[trigger] wins_at(g, r, c, d) by {
        if wins_at(g, r, c, d) {
            lemma_winning_run_stays_on_board(g, r, c, d, 0);
        }
    }
}

/// Once a player's mark is written to a cell, the cell holds that player
/// and is no longer available.
pub proof fn lemma_marked_cell_is_taken(g: Grid, row: int, col: int, player: usize)
    requires
        in_bounds(g, row, col),
    ensures
        with_cell(g, row, col, Intersection::Player(player))[row][col] == Intersection::Player(
            player,
        ),
        available(with_cell(g, row, col, Intersection::Player(player)), row, col) == Ok::<
            bool,
            GameError,
        >(false),
{
}

/// A grid with an empty cell is not full.
pub proof fn lemma_empty_cell_means_not_full(g: Grid, row: int, col: int)
    requires
        in_bounds(g, row, col),
        g[row][col] is Empty,
    ensures
        !is_full(g),
{
}

/// A mark written to a cell fills the grid exactly if every other cell was
/// occupied already: the grid becomes full at the moment its last empty
/// cell is marked, in whatever order the cells were filled.
pub proof fn lemma_full_when_last_cell_is_marked(g: Grid, row: int, col: int, player: usize)
    requires
        in_bounds(g, row, col),
    ensures
        is_full(with_cell(g, row, col, Intersection::Player(player))) <==> forall|r: int, c: int|
            in_bounds(g, r, c) && (r != row || c != col) ==> #[trigger] g[r][c] is Player,
{
    let marked = with_cell(g, row, col, Intersection::Player(player));
    if is_full(marked) {
        assert forall|r: int, c: int|
            in_bounds(g, r, c) && (r != row || c != col) implies #[trigger] g[r][c] is Player by {
            assert(marked[r][c] == g[r][c]);
        }
    }
    if forall|r: int, c: int|
        in_bounds(g, r, c) && (r != row || c != col) ==> #[trigger] g[r][c] is Player {
        assert forall|r: int, c: int| in_bounds(marked, r, c) implies #[trigger] marked[r][c]
            is Player by {
            if r != row || c != col {
                assert(g[r][c] is Player);
            }
        }
    }
}

/// A grid is full exactly if it has no empty cell, and a player's mark
/// takes its cell out of the empty cells and leaves the others. So which
/// cells are empty after some marks, and with it whether the grid is full,
/// does not depend on the order of the marks.
pub proof fn lemma_mark_removes_empty_cell(g: Grid, row: int, col: int, player: usize)
    requires
        in_bounds(g, row, col),
    ensures
        is_full(g) <==> empty_cells(g) == Set::<(int, int)>::empty(),
        empty_cells(with_cell(g, row, col, Intersection::Player(player))) == empty_cells(
            g,
        ).remove((row, col)),
{
    assert(empty_cells(with_cell(g, row, col, Intersection::Player(player))) =~= empty_cells(
        g,
    ).remove((row, col)));
    if is_full(g) {
        assert(empty_cells(g) =~= Set::<(int, int)>::empty());
    }
    if empty_cells(g) == Set::<(int, int)>::empty() {
        assert forall|r: int, c: int| in_bounds(g, r, c) implies #[trigger] g[r][c] is Player by {
            assert(!empty_cells(g).contains((r, c)));
        }
    }
}

/// A full grid stays full when a player's mark overwrites one of its
/// cells.
pub proof fn lemma_full_stays_full(g: Grid, row: int, col: int, player: usize)
    requires
        in_bounds(g, row, col),
        is_full(g),
    ensures
        is_full(with_cell(g, row, col, Intersection::Player(player))),
{
    lemma_full_when_last_cell_is_marked(g, row, col, player);
}

/// A run with a slot off the board holds `Empty` in that slot and never
/// wins, whatever the board holds.
pub proof fn lemma_run_off_board_never_wins(g: Grid, row: int, col: int, d: Direction, k: int)
    requires
        0 <= k < WINNING_LEN,
        !in_bounds(g, d.advance(row, col, k).0, d.advance(row, col, k).1),
    ensures
        run_at(g, row, col, d)[k] is Empty,
        !wins_at(g, row, col, d),
{
    if wins_at(g, row, col, d) {
        lemma_winning_run_stays_on_board(g, row, col, d, k);
    }
}

/// The diagonal-up run from a cell of the top row leaves the board with
/// its second slot, so it never wins.
pub proof fn lemma_diagonal_up_from_top_row_never_wins(g: Grid, col: int)
    ensures
        run_at(g, 0, col, Direction::DiagonalUp)[1] is Empty,
        !wins_at(g, 0, col, Direction::DiagonalUp),
{
    lemma_run_off_board_never_wins(g, 0, col, Direction::DiagonalUp, 1);
}

/// Where some run wins, some winning run is the first in scan order.
pub proof fn lemma_some_win_is_first(g: Grid, row: int, col: int, d: Direction)
    requires
        wins_at(g, row, col, d),
    ensures
        exists|r: int, c: int, e: Direction| first_win(g, r, c, e),
    decreases row, col, d.rank(),
{
    lemma_winning_run_stays_on_board(g, row, col, d, 0);
    if exists|r: int, c: int, e: Direction|
        scans_before(r, c, e, row, col, d) && wins_at(g, r, c, e) {
        let (r, c, e) = choose|r: int, c: int, e: Direction|
            scans_before(r, c, e, row, col, d) && wins_at(g, r, c, e);
        lemma_winning_run_stays_on_board(g, r, c, e, 0);
        lemma_some_win_is_first(g, r, c, e);
    } else {
        assert(first_win(g, row, col, d));
    }
}

/// A grid has no winner exactly if none of its runs wins.
pub proof fn lemma_no_winner_iff_no_win(g: Grid)
    ensures
        winner(g) is None <==> forall|r: int, c: int, d: Direction| !#[trigger] wins_at(g, r, c, d),
{
    if winner(g) is None {
        assert forall|r: int, c: int, d: Direction| !#[trigger] wins_at(g, r, c, d) by {
            if wins_at(g, r, c, d) {
                lemma_some_win_is_first(g, r, c, d);
                let (r1, c1, d1) = choose|r: int, c: int, e: Direction| first_win(g, r, c, e);
                assert(wins_at(g, r1, c1, d1));
            }
        }
    }
}

/// The empty grid of any side has no winner.
pub proof fn lemma_empty_grid_has_no_winner(n: nat)
    ensures
        winner(empty_grid(n)) is None,
{
    lemma_unplayed_grid_has_no_winner(empty_grid(n));
}

/// With no winning run at any origin that the scan visits before
/// `(row, col)`, a winner found at `(row, col)` is the winner of the grid.
proof fn lemma_origin_decides(g: Grid, row: int, col: int)
    requires
        forall|r: int, c: int, e: Direction|
            r < row || (r == row && c < col) ==> !#[trigger] wins_at(g, r, c, e),
        origin_winner(g, row, col) is Some,
    ensures
        winner(g) == origin_winner(g, row, col),
{
    let d = if wins_at(g, row, col, Direction::Horizontal) {
        Direction::Horizontal
    } else if wins_at(g, row, col, Direction::Vertical) {
        Direction::Vertical
    } else if wins_at(g, row, col, Direction::DiagonalUp) {
        Direction::DiagonalUp
    } else {
        Direction::DiagonalDown
    };
    assert forall|r: int, c: int, e: Direction| scans_before(r, c, e, row, col, d) implies !
    #[trigger] wins_at(g, r, c, e) by {
        if r == row && c == col {
            assert(e.rank() < d.rank());
        }
    }
    lemma_first_win_decides(g, row, col, d);
}

/// Tries the four runs that start at `origin`, in the order of the
/// directions, and returns the owner of the first that wins.
fn winner_at(board: &Board, origin: Position) -> (w: Option<usize>)
    ensures
        w == origin_winner(board@, origin.0 as int, origin.1 as int),
{
    let horizontal = check_winning(&extract_run(board, origin, Direction::Horizontal));
    if horizontal.is_some() {
        return horizontal;
    }
    let vertical = check_winning(&extract_run(board, origin, Direction::Vertical));
    if vertical.is_some() {
        return vertical;
    }
    let diagonal_up = check_winning(&extract_run(board, origin, Direction::DiagonalUp));
    if diagonal_up.is_some() {
        return diagonal_up;
    }
    check_winning(&extract_run(board, origin, Direction::DiagonalDown))
}

/// Scans the whole board for a winning run, origins in row-major order and
/// the four directions in their fixed order at each origin, and returns
/// the owner of the first winning run, or `None` when no run wins.
pub fn _game_get_winner(board: &Board) -> (w: Option<usize>)
    ensures
        w == winner(board@),
        w is None <==> forall|r: int, c: int, d: Direction| !#[trigger] wins_at(board@, r, c, d),
{
    proof {
        lemma_no_winner_iff_no_win(board@);
    }
    let n = board.len();
    let mut row: usize = 0;
    while row < n
        invariant
            row <= n,
            n == board@.len(),
            square(board@),
            forall|r: int, c: int, e: Direction|
                r < row ==> !#[trigger] wins_at(board@, r, c, e),
        decreases n - row,
    {
        let mut col: usize = 0;
        while col < n
            invariant
                row < n,
                col <= n,
                n == board@.len(),
                square(board@),
                forall|r: int, c: int, e: Direction|
                    r < row || (r == row && c < col) ==> !#[trigger] wins_at(board@, r, c, e),
            decreases n - col,
        {
            let found = winner_at(board, Position(row, col));
            if found.is_some() {
                proof {
                    lemma_origin_decides(board@, row as int, col as int);
                }
                return found;
            }
            col = col + 1;
        }
        proof {
            assert forall|r: int, c: int, e: Direction| r < row + 1 implies !#[trigger] wins_at(
                board@,
                r,
                c,
                e,
            ) by {
                if wins_at(board@, r, c, e) {
                    lemma_winning_run_stays_on_board(board@, r, c, e, 0);
                }
            }
        }
        row = row + 1;
    }
    proof {
        assert forall|r: int, c: int, e: Direction| !#[trigger] wins_at(board@, r, c, e) by {
            if wins_at(board@, r, c, e) {
                lemma_winning_run_stays_on_board(board@, r, c, e, 0);
            }
        }
    }
    None
}

/// Decides whether the board is full: no empty cell is left.
pub fn game_is_tie(board: &Board) -> (t: bool)
    ensures
        t == is_full(board@),
{
    let n = board.len();
    let mut row: usize = 0;
    while row < n
        invariant
            row <= n,
            n == board@.len(),
            square(board@),
            forall|r: int, c: int|
                0 <= r < row && 0 <= c < n ==> #[trigger] board@[r][c] is Player,
        decreases n - row,
    {
        let mut col: usize = 0;
        while col < n
            invariant
                row < n,
                col <= n,
                n == board@.len(),
                square(board@),
                forall|r: int, c: int|
                    0 <= r < row && 0 <= c < n ==> #[trigger] board@[r][c] is Player,
                forall|c: int| 0 <= c < col ==> #[trigger] board@[row as int][c] is Player,
            decreases n - col,
        {
            match board.get(row, col) {
                Ok(Intersection::Player(_)) => {},
                _ => {
                    return false;
                },
            }
            col = col + 1;
        }
        row = row + 1;
    }
    true
}

} // verus!
