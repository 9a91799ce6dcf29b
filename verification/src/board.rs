//! The board: a square matrix of intersections with bounds-checked access.

use crate::input::InputError;
use vstd::prelude::*;

verus! {

/// The state of one intersection of the board.
#[derive(Clone, Copy, PartialEq, Eq, PartialOrd, Debug, Structural)]
pub enum Intersection {
    /// Nobody has played here.
    Empty,
    /// The player with this index has played here.
    Player(usize),
}

/// A coordinate pair: row first, then column.
#[derive(Clone, Copy, PartialEq, Eq, PartialOrd, Debug, Structural)]
pub struct Position(pub usize, pub usize);

/// Why the engine refused to do what it was asked.
#[derive(Clone, Copy, PartialEq, Eq, Debug, Structural)]
pub enum GameError {
    /// A coordinate lies outside the board.
    OutOfBounds,
    /// A board of side zero was asked for.
    InvalidSize,
    /// The intersection is already occupied.
    PositionTaken,
    /// No move could be read from the player's input, for the given reason.
    MalformedInput(InputError),
}

/// The mathematical model of a board: its rows, top to bottom.
pub type Grid = Seq<Seq<Intersection>>;

/// A grid is square when it has at least one row and every row is as long
/// as the grid has rows.
pub open spec fn square(g: Grid) -> bool {
    &&& g.len() > 0
    &&& forall|r: int| 0 <= r < g.len() ==> (#[trigger] g[r]).len() == g.len()
}

/// `(row, col)` addresses a cell of `g`.
pub open spec fn in_bounds(g: Grid, row: int, col: int) -> bool {
    0 <= row < g.len() && 0 <= col < g[row].len()
}

/// On a square grid the coordinates that address a cell are those below
/// its side.
pub proof fn lemma_in_bounds_of_square(g: Grid, row: int, col: int)
    requires
        square(g),
    ensures
        in_bounds(g, row, col) <==> 0 <= row < g.len() && 0 <= col < g.len(),
{
}

/// The square grid of side `n` on which nobody has played.
pub open spec fn empty_grid(n: nat) -> Grid {
    Seq::new(n, |r: int| Seq::new(n, |c: int| Intersection::Empty))
}

/// The grid `g` with the cell at `(row, col)` replaced by `value`.
pub open spec fn with_cell(g: Grid, row: int, col: int, value: Intersection) -> Grid {
    g.update(row, g[row].update(col, value))
}

/// On the empty grid of side `n` the coordinates below `n` address a cell,
/// no others do, and every cell is empty.
pub proof fn lemma_empty_grid_is_empty(n: nat, row: int, col: int)
    ensures
        in_bounds(empty_grid(n), row, col) <==> 0 <= row < n && 0 <= col < n,
        in_bounds(empty_grid(n), row, col) ==> empty_grid(n)[row][col] == Intersection::Empty,
        n > 0 ==> square(empty_grid(n)),
{
}

/// Writing a cell changes that cell and nothing else: the written value is
/// read back, every other cell holds what it held, and the same
/// coordinates address a cell as before.
pub proof fn lemma_with_cell_reads_back(
    g: Grid,
    row: int,
    col: int,
    value: Intersection,
    r: int,
    c: int,
)
    requires
        in_bounds(g, row, col),
    ensures
        in_bounds(with_cell(g, row, col, value), r, c) == in_bounds(g, r, c),
        with_cell(g, row, col, value)[row][col] == value,
        in_bounds(g, r, c) && (r != row || c != col) ==> with_cell(g, row, col, value)[r][c]
            == g[r][c],
        square(g) ==> square(with_cell(g, row, col, value)),
{
}

/// Writes to two different cells give the same grid in either order.
pub proof fn lemma_writes_commute(
    g: Grid,
    row1: int,
    col1: int,
    value1: Intersection,
    row2: int,
    col2: int,
    value2: Intersection,
)
    requires
        in_bounds(g, row1, col1),
        in_bounds(g, row2, col2),
        row1 != row2 || col1 != col2,
    ensures
        with_cell(with_cell(g, row1, col1, value1), row2, col2, value2) == with_cell(
            with_cell(g, row2, col2, value2),
            row1,
            col1,
            value1,
        ),
{
    let first = with_cell(with_cell(g, row1, col1, value1), row2, col2, value2);
    let second = with_cell(with_cell(g, row2, col2, value2), row1, col1, value1);
    assert forall|r: int| 0 <= r < first.len() implies #[trigger] first[r] =~= second[r] by {}
}

/// A square board of fixed side. Cells are reached only through `get` and
/// `set`, so a board never changes its shape.
#[derive(Debug, PartialEq, Eq)]
pub struct Board {
    cells: Vec<Vec<Intersection>>,
}

impl Board {
    /// The rows of the board as a grid.
    pub closed spec fn view(&self) -> Grid {
        self.cells@.map_values(|row: Vec<Intersection>| row@)
    }

    #[verifier::type_invariant]
    spec fn is_square(&self) -> bool {
        &&& self.cells.len() > 0
        &&& forall|r: int|
            0 <= r < self.cells.len() ==> (#[trigger] self.cells[r]).len() == self.cells.len()
    }

    /// Overwrites one cell of `cells` and leaves every length as it was.
    fn write(cells: &mut Vec<Vec<Intersection>>, row: usize, col: usize, value: Intersection)
        requires
            row < old(cells).len(),
            col < old(cells)[row as int].len(),
        ensures
            final(cells).len() == old(cells).len(),
            final(cells)[row as int]@ == old(cells)[row as int]@.update(col as int, value),
            forall|r: int|
                0 <= r < old(cells).len() && r != row ==> final(cells)[r] == old(cells)[r],
        no_unwind
    {
        cells[row][col] = value;
    }

    /// The number of rows and the length of each row are machine integers.
    pub proof fn lemma_fits(&self)
        ensures
            self@.len() <= usize::MAX,
            forall|r: int| 0 <= r < self@.len() ==> (#[trigger] self@[r]).len() <= usize::MAX,
    {
        assert(self@.len() == self.cells.len());
        assert forall|r: int| 0 <= r < self@.len() implies (#[trigger] self@[r]).len()
            <= usize::MAX by {
            assert(self@[r].len() == self.cells[r].len());
        }
    }

    /// The side length of the board.
    pub fn len(&self) -> (n: usize)
        ensures
            n == self@.len(),
            square(self@),
    {
        proof {
            use_type_invariant(self);
        }
        self.cells.len()
    }

    /// The rows of the board, top to bottom, for reading.
    pub fn rows(&self) -> (rows: &Vec<Vec<Intersection>>)
        ensures
            rows@.len() == self@.len(),
            forall|r: int| 0 <= r < rows@.len() ==> (#[trigger] rows@[r])@ == self@[r],
    {
        &self.cells
    }

    /// Reads the cell at `(row, col)`, or reports that it lies outside the
    /// board.
    pub fn get(&self, row: usize, col: usize) -> (r: Result<Intersection, GameError>)
        ensures
            in_bounds(self@, row as int, col as int) ==> r == Ok::<Intersection, GameError>(
                self@[row as int][col as int],
            ),
            !in_bounds(self@, row as int, col as int) ==> r == Err::<Intersection, GameError>(
                GameError::OutOfBounds,
            ),
            r is Err <==> row >= self@.len() || col >= self@.len(),
    {
        proof {
            use_type_invariant(self);
        }
        if row < self.cells.len() && col < self.cells.len() {
            Ok(self.cells[row][col])
        } else {
            Err(GameError::OutOfBounds)
        }
    }

    /// Overwrites the cell at `(row, col)` with `value`, whatever it held
    /// before, or reports that it lies outside the board and changes
    /// nothing.
    pub fn set(&mut self, row: usize, col: usize, value: Intersection) -> (r: Result<
        (),
        GameError,
    >)
        ensures
            in_bounds(old(self)@, row as int, col as int) ==> r == Ok::<(), GameError>(())
                && final(self)@ == with_cell(old(self)@, row as int, col as int, value),
            !in_bounds(old(self)@, row as int, col as int) ==> r == Err::<(), GameError>(
                GameError::OutOfBounds,
            ) && final(self)@ == old(self)@,
            r is Err <==> row >= old(self)@.len() || col >= old(self)@.len(),
    {
        proof {
            use_type_invariant(&*self);
        }
        if row < self.cells.len() && col < self.cells.len() {
            Self::write(&mut self.cells, row, col, value);
            Ok(())
        } else {
            Err(GameError::OutOfBounds)
        }
    }
}

/// Creates the board of side `n` with every cell empty. A board of side
/// zero does not exist.
pub fn make_board(n: usize) -> (r: Result<Board, GameError>)
    ensures
        n == 0 ==> r == Err::<Board, GameError>(GameError::InvalidSize),
        n > 0 ==> r is Ok && r->Ok_0@ == empty_grid(n as nat),
{
    if n == 0 {
        return Err(GameError::InvalidSize);
    }
    let mut cells: Vec<Vec<Intersection>> = Vec::new();
    let mut r: usize = 0;
    while r < n
        invariant
            r <= n,
            cells@.len() == r,
            forall|i: int| 0 <= i < r ==> (#[trigger] cells@[i])@ == Seq::new(
                n as nat,
                |c: int| Intersection::Empty,
            ),
        decreases n - r,
    {
        let mut row: Vec<Intersection> = Vec::new();
        let mut c: usize = 0;
        while c < n
            invariant
                c <= n,
                row@.len() == c,
                forall|j: int| 0 <= j < c ==> row@[j] == Intersection::Empty,
            decreases n - c,
        {
            row.push(Intersection::Empty);
            c = c + 1;
        }
        cells.push(row);
        r = r + 1;
    }
    let board = Board { cells };
    Ok(board)
}

} // verus!
