//! The text form of a board: a header line with the column numbers, then
//! one line for each row.

use crate::board::{in_bounds, square, Board, Grid, Intersection};
use crate::input::{all_digits, decimal_value, digit_value, integer_of, is_digit};
use vstd::prelude::*;
use vstd::string::StringExecFns;

verus! {

/// The character that writes the digit `d`.
pub open spec fn digit_char(d: nat) -> char {
    ('0' as u32 + d) as char
}

/// The decimal form of `n`, most significant digit first, without leading
/// zeros.
pub open spec fn decimal(n: nat) -> Seq<char>
    decreases n,
{
    if n < 10 {
        seq![digit_char(n)]
    } else {
        decimal(n / 10).push(digit_char(n % 10))
    }
}

/// `s` followed by as many spaces as it lacks to `width` characters.
pub open spec fn padded(s: Seq<char>, width: nat) -> Seq<char> {
    if s.len() < width {
        s + Seq::new((width - s.len()) as nat, |i: int| ' ')
    } else {
        s
    }
}

/// The label of row or column `n`: its number, padded to two characters,
/// and a space.
pub open spec fn label(n: nat) -> Seq<char> {
    padded(decimal(n), 2) + seq![' ']
}

/// The labels of the columns `0` to `n - 1`, one after the other.
pub open spec fn labels(n: nat) -> Seq<char>
    decreases n,
{
    if n == 0 {
        Seq::empty()
    } else {
        labels((n - 1) as nat) + label((n - 1) as nat)
    }
}

/// The mark of one cell: a dot for an empty cell, else the player's
/// number.
pub open spec fn glyph(cell: Intersection) -> Seq<char> {
    match cell {
        Intersection::Empty => seq!['.'],
        Intersection::Player(id) => decimal(id as nat),
    }
}

/// The marks of the cells of `row`, each followed by two spaces.
pub open spec fn cells_text(row: Seq<Intersection>) -> Seq<char>
    decreases row.len(),
{
    if row.len() == 0 {
        Seq::empty()
    } else {
        cells_text(row.drop_last()) + glyph(row.last()) + seq![' ', ' ']
    }
}

/// The line of row `i`: its label, its cells, and a line feed.
pub open spec fn row_text(i: nat, row: Seq<Intersection>) -> Seq<char> {
    label(i) + cells_text(row) + seq!['\n']
}

/// The lines of the first `k` rows of `g`.
pub open spec fn rows_text(g: Grid, k: nat) -> Seq<char>
    decreases k,
{
    if k == 0 {
        Seq::empty()
    } else {
        rows_text(g, (k - 1) as nat) + row_text((k - 1) as nat, g[k - 1])
    }
}

/// The text of `g`: three spaces, the column labels and a line feed, then
/// the line of each row.
pub open spec fn rendered(g: Grid) -> Seq<char> {
    seq![' ', ' ', ' '] + labels(g.len()) + seq!['\n'] + rows_text(g, g.len())
}

/// A number below ten is written with one digit, any other with more.
proof fn lemma_decimal_len(n: nat)
    ensures
        decimal(n).len() >= 1,
        n < 10 <==> decimal(n).len() == 1,
    decreases n,
{
    if n >= 10 {
        lemma_decimal_len(n / 10);
    }
}

/// The decimal form of a number is read back as that number: what a label
/// shows is what a player types to name that row or column.
pub proof fn lemma_decimal_reads_back(n: nat)
    ensures
        all_digits(decimal(n)),
        decimal_value(decimal(n)) == n,
        n <= usize::MAX ==> integer_of(decimal(n)) == Some(n as usize),
    decreases n,
{
    let text = decimal(n);
    lemma_decimal_len(n);
    if n >= 10 {
        lemma_decimal_reads_back(n / 10);
        lemma_decimal_len(n / 10);
        assert(text.drop_last() =~= decimal(n / 10));
    }
    assert(decimal_value(text) == 10 * decimal_value(text.drop_last()) + digit_value(text.last()));
}

/// The text of one decimal digit.
fn digit_text(d: usize) -> (t: &'static str)
    requires
        d < 10,
    ensures
        t@ == seq![digit_char(d as nat)],
{
    proof {
        reveal_strlit("0");
        reveal_strlit("1");
        reveal_strlit("2");
        reveal_strlit("3");
        reveal_strlit("4");
        reveal_strlit("5");
        reveal_strlit("6");
        reveal_strlit("7");
        reveal_strlit("8");
        reveal_strlit("9");
    }
    let t = match d {
        0 => "0",
        1 => "1",
        2 => "2",
        3 => "3",
        4 => "4",
        5 => "5",
        6 => "6",
        7 => "7",
        8 => "8",
        _ => "9",
    };
    t
}

/// Appends the decimal form of `n` to `s`.
fn push_decimal(s: &mut String, n: usize)
    ensures
        final(s)@ == old(s)@ + decimal(n as nat),
    decreases n,
{
    if n >= 10 {
        push_decimal(s, n / 10);
    }
    s.append(digit_text(n % 10));
}

/// Appends the label of row or column `n` to `s`.
fn push_label(s: &mut String, n: usize)
    ensures
        final(s)@ == old(s)@ + label(n as nat),
{
    proof {
        lemma_decimal_len(n as nat);
        reveal_strlit(" ");
    }
    push_decimal(s, n);
    if n < 10 {
        s.append(" ");
    }
    s.append(" ");
}

/// Writes `board` as text for display.
pub fn board_to_string(board: &Board) -> (s: String)
    ensures
        s@ == rendered(board@),
{
    let n = board.len();
    let mut s = String::new();
    proof {
        reveal_strlit("   ");
        reveal_strlit("\n");
        reveal_strlit(".");
        reveal_strlit("  ");
    }
    s.append("   ");
    let mut col: usize = 0;
    while col < n
        invariant
            col <= n,
            s@ == seq![' ', ' ', ' '] + labels(col as nat),
        decreases n - col,
    {
        push_label(&mut s, col);
        col = col + 1;
    }
    s.append("\n");
    let ghost header = s@;
    let mut row: usize = 0;
    while row < n
        invariant
            row <= n,
            n == board@.len(),
            square(board@),
            s@ == header + rows_text(board@, row as nat),
            "  "@ == seq![' ', ' '],
            "."@ == seq!['.'],
            "\n"@ == seq!['\n'],
        decreases n - row,
    {
        let ghost before = s@;
        let ghost cells = board@[row as int];
        push_label(&mut s, row);
        let mut col: usize = 0;
        while col < n
            invariant
                row < n,
                col <= n,
                n == board@.len(),
                square(board@),
                cells == board@[row as int],
                s@ == before + label(row as nat) + cells_text(cells.take(col as int)),
                "  "@ == seq![' ', ' '],
                "."@ == seq!['.'],
            decreases n - col,
        {
            match board.get(row, col) {
                Ok(Intersection::Player(id)) => {
                    push_decimal(&mut s, id);
                },
                _ => {
                    s.append(".");
                },
            }
            s.append("  ");
            assert(cells.take(col as int + 1).drop_last() =~= cells.take(col as int));
            col = col + 1;
        }
        assert(cells.take(n as int) =~= cells);
        s.append("\n");
        row = row + 1;
    }
    s
}

} // verus!
