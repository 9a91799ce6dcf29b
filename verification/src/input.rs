//! Reading a move from a line of text: two non-negative decimal integers,
//! row first, separated and surrounded by any amount of white space.

use crate::board::Position;
use vstd::prelude::*;

verus! {

/// Why a line of text is not a move.
#[derive(Clone, Copy, PartialEq, Eq, Debug, Structural)]
pub enum InputError {
    /// The line does not hold exactly two parts.
    NotTwoParts,
    /// A part is not a non-negative decimal integer.
    NotAnInteger,
    /// A coordinate is not below the board's side.
    TooLarge,
}

impl InputError {
    /// A short sentence that says what is wrong with the line.
    pub fn message(&self) -> (m: &'static str)
        ensures
            m@ == match *self {
                InputError::NotTwoParts => "Not 2 parts"@,
                InputError::NotAnInteger => "Not an integer"@,
                InputError::TooLarge => "Too large"@,
            },
    {
        match self {
            InputError::NotTwoParts => "Not 2 parts",
            InputError::NotAnInteger => "Not an integer",
            InputError::TooLarge => "Too large",
        }
    }
}

/// The characters with the Unicode property `White_Space`.
pub open spec fn is_space(c: char) -> bool {
    let u = c as u32;
    ||| 0x09 <= u <= 0x0D
    ||| u == 0x20
    ||| u == 0x85
    ||| u == 0xA0
    ||| u == 0x1680
    ||| 0x2000 <= u <= 0x200A
    ||| u == 0x2028
    ||| u == 0x2029
    ||| u == 0x202F
    ||| u == 0x205F
    ||| u == 0x3000
}

/// The ten ASCII decimal digits.
pub open spec fn is_digit(c: char) -> bool {
    '0' <= c <= '9'
}

/// The number that a decimal digit stands for.
pub open spec fn digit_value(c: char) -> nat {
    (c as u32 - '0' as u32) as nat
}

/// `s` without its leading white space.
pub open spec fn trim_start(s: Seq<char>) -> Seq<char>
    decreases s.len(),
{
    if s.len() > 0 && is_space(s[0]) {
        trim_start(s.drop_first())
    } else {
        s
    }
}

/// `s` without its trailing white space.
pub open spec fn trim_end(s: Seq<char>) -> Seq<char>
    decreases s.len(),
{
    if s.len() > 0 && is_space(s.last()) {
        trim_end(s.drop_last())
    } else {
        s
    }
}

/// `s` without its leading and trailing white space.
pub open spec fn trimmed(s: Seq<char>) -> Seq<char> {
    trim_end(trim_start(s))
}

/// The number written by a sequence of decimal digits, most significant
/// digit first; zero for the empty sequence.
pub open spec fn decimal_value(digits: Seq<char>) -> nat
    decreases digits.len(),
{
    if digits.len() == 0 {
        0
    } else {
        10 * decimal_value(digits.drop_last()) + digit_value(digits.last())
    }
}

/// Every character of `s` is a decimal digit.
pub open spec fn all_digits(s: Seq<char>) -> bool {
    forall|i: int| 0 <= i < s.len() ==> is_digit(#[trigger] s[i])
}

/// The machine integer that `s` writes: an optional `+`, then one or more
/// decimal digits whose value fits. Anything else writes no integer.
pub open spec fn integer_of(s: Seq<char>) -> Option<usize> {
    let digits = if s.len() > 0 && s[0] == '+' {
        s.drop_first()
    } else {
        s
    };
    if digits.len() > 0 && all_digits(digits) && decimal_value(digits) <= usize::MAX {
        Some(decimal_value(digits) as usize)
    } else {
        None
    }
}

/// The coordinate that one part of a line writes for a board of side
/// `board_size`.
pub open spec fn part_of(s: Seq<char>, board_size: usize) -> Result<usize, InputError> {
    match integer_of(trimmed(s)) {
        None => Err(InputError::NotAnInteger),
        Some(value) => if value >= board_size {
            Err(InputError::TooLarge)
        } else {
            Ok(value)
        },
    }
}

/// The length of the longest prefix of `s` that holds no white space.
pub open spec fn word_len(s: Seq<char>) -> nat
    decreases s.len(),
{
    if s.len() == 0 || is_space(s[0]) {
        0
    } else {
        1 + word_len(s.drop_first())
    }
}

/// The prefix of `s` without white space is no longer than `s`.
pub proof fn lemma_word_len_bound(s: Seq<char>)
    ensures
        word_len(s) <= s.len(),
    decreases s.len(),
{
    if s.len() > 0 && !is_space(s[0]) {
        lemma_word_len_bound(s.drop_first());
    }
}

/// The words of `s`: its maximal runs of characters that are not white
/// space, in order.
pub open spec fn words(s: Seq<char>) -> Seq<Seq<char>>
    decreases s.len(),
{
    if s.len() == 0 {
        Seq::empty()
    } else if is_space(s[0]) {
        words(s.drop_first())
    } else {
        proof {
            lemma_word_len_bound(s);
        }
        seq![s.take(word_len(s) as int)] + words(s.skip(word_len(s) as int))
    }
}

/// The move that a line writes for a board of side `board_size`: exactly
/// two words, the row and then the column, each a coordinate of the board.
/// Of two bad parts the first is reported.
pub open spec fn position_of(s: Seq<char>, board_size: usize) -> Result<Position, InputError> {
    let parts = words(s);
    if parts.len() != 2 {
        Err(InputError::NotTwoParts)
    } else {
        match part_of(parts[0], board_size) {
            Err(e) => Err(e),
            Ok(row) => match part_of(parts[1], board_size) {
                Err(e) => Err(e),
                Ok(col) => Ok(Position(row, col)),
            },
        }
    }
}

/// Decides whether `c` is white space.
pub fn is_white_space(c: char) -> (b: bool)
    ensures
        b == is_space(c),
{
    let u = c as u32;
    (0x09 <= u && u <= 0x0D) || u == 0x20 || u == 0x85 || u == 0xA0 || u == 0x1680 || (0x2000 <= u
        && u <= 0x200A) || u == 0x2028 || u == 0x2029 || u == 0x202F || u == 0x205F || u == 0x3000
}

/// The characters of `s`, in order.
fn chars_of(s: &str) -> (v: Vec<char>)
    ensures
        v@ == s@,
{
    let mut v: Vec<char> = Vec::new();
    for c in it: s.chars()
        invariant
            it.seq() == s@,
            v@ == s@.take(it.index()),
    {
        v.push(c);
    }
    v
}

/// The value of a digit sequence is at least the value of each of its
/// prefixes.
proof fn lemma_decimal_value_grows(digits: Seq<char>, k: int)
    requires
        0 <= k <= digits.len(),
    ensures
        decimal_value(digits.take(k)) <= decimal_value(digits),
    decreases digits.len() - k,
{
    if k == digits.len() {
        assert(digits.take(k) =~= digits);
    } else {
        lemma_decimal_value_grows(digits, k + 1);
        assert(digits.take(k + 1).drop_last() =~= digits.take(k));
    }
}

/// Finds the part of `chars` that is left when the white space at both
/// ends is taken away.
fn trim_bounds(chars: &Vec<char>) -> (r: (usize, usize))
    ensures
        r.0 <= r.1 <= chars.len(),
        chars@.subrange(r.0 as int, r.1 as int) == trimmed(chars@),
{
    let mut from: usize = 0;
    assert(chars@.skip(0) =~= chars@);
    while from < chars.len() && is_white_space(chars[from])
        invariant
            from <= chars.len(),
            trim_start(chars@) == trim_start(chars@.skip(from as int)),
        decreases chars.len() - from,
    {
        assert(chars@.skip(from as int).drop_first() =~= chars@.skip(from as int + 1));
        from = from + 1;
    }
    let mut to: usize = chars.len();
    while from < to && is_white_space(chars[to - 1])
        invariant
            from <= to <= chars.len(),
            trimmed(chars@) == trim_end(chars@.subrange(from as int, to as int)),
        decreases to,
    {
        assert(chars@.subrange(from as int, to as int).drop_last() =~= chars@.subrange(
            from as int,
            to as int - 1,
        ));
        to = to - 1;
    }
    (from, to)
}

/// Reads the characters of `chars` from `from` up to `to` as a machine
/// integer.
#[verifier::loop_isolation(false)]
fn integer_between(chars: &Vec<char>, from: usize, to: usize) -> (r: Option<usize>)
    requires
        from <= to <= chars.len(),
    ensures
        r == integer_of(chars@.subrange(from as int, to as int)),
{
    let start = if from < to && chars[from] == '+' {
        from + 1
    } else {
        from
    };
    let ghost digits = chars@.subrange(start as int, to as int);
    assert(start > from ==> digits =~= chars@.subrange(from as int, to as int).drop_first());
    if start == to {
        return None;
    }
    let mut value: usize = 0;
    let mut i: usize = start;
    while i < to
        invariant
            start <= i <= to <= chars.len(),
            digits == chars@.subrange(start as int, to as int),
            all_digits(digits.take(i - start)),
            value == decimal_value(digits.take(i - start)),
        decreases to - i,
    {
        let c = chars[i];
        let ghost next = digits.take(i - start + 1);
        assert(next.drop_last() =~= digits.take(i - start));
        if !('0' <= c && c <= '9') {
            assert(!is_digit(digits[i - start]));
            return None;
        }
        let digit = (c as u32 - '0' as u32) as usize;
        let grown = match value.checked_mul(10) {
            Some(tens) => tens.checked_add(digit),
            None => None,
        };
        match grown {
            Some(v) => {
                value = v;
            },
            None => {
                proof {
                    lemma_decimal_value_grows(digits, i - start + 1);
                }
                return None;
            },
        }
        i = i + 1;
    }
    assert(digits.take(to - start) =~= digits);
    Some(value)
}

/// Reads one part of a line from its characters.
fn part_from_chars(chars: &Vec<char>, board_size: usize) -> (r: Result<usize, InputError>)
    ensures
        r == part_of(chars@, board_size),
{
    let (from, to) = trim_bounds(chars);
    match integer_between(chars, from, to) {
        None => Err(InputError::NotAnInteger),
        Some(value) => if value >= board_size {
            Err(InputError::TooLarge)
        } else {
            Ok(value)
        },
    }
}

/// Reads one coordinate for a board of side `board_size` from `s`: white
/// space at both ends is ignored, and what is left must be a decimal
/// integer below `board_size`.
pub fn parse_position_part(s: &str, board_size: usize) -> (r: Result<usize, InputError>)
    ensures
        r == part_of(s@, board_size),
{
    let chars = chars_of(s);
    part_from_chars(&chars, board_size)
}

/// The rows of `ws` as sequences.
spec fn texts(ws: Seq<Vec<char>>) -> Seq<Seq<char>> {
    ws.map_values(|w: Vec<char>| w@)
}

/// Splits `chars` at white space into its words.
fn split_words(chars: &Vec<char>) -> (ws: Vec<Vec<char>>)
    ensures
        texts(ws@) == words(chars@),
{
    let mut ws: Vec<Vec<char>> = Vec::new();
    let mut i: usize = 0;
    assert(chars@.skip(0) =~= chars@);
    while i < chars.len()
        invariant
            i <= chars.len(),
            words(chars@) == texts(ws@) + words(chars@.skip(i as int)),
        decreases chars.len() - i,
    {
        let ghost rest = chars@.skip(i as int);
        if is_white_space(chars[i]) {
            assert(rest.drop_first() =~= chars@.skip(i as int + 1));
            i = i + 1;
        } else {
            let start = i;
            let mut word: Vec<char> = Vec::new();
            while i < chars.len() && !is_white_space(chars[i])
                invariant
                    start <= i <= chars.len(),
                    rest == chars@.skip(start as int),
                    word@ == chars@.subrange(start as int, i as int),
                    word_len(rest) == (i - start) + word_len(chars@.skip(i as int)),
                decreases chars.len() - i,
            {
                assert(chars@.skip(i as int).drop_first() =~= chars@.skip(i as int + 1));
                word.push(chars[i]);
                i = i + 1;
            }
            assert(rest.take(i - start) =~= word@);
            assert(rest.skip(i - start) =~= chars@.skip(i as int));
            ws.push(word);
        }
    }
    ws
}

/// Reads a move for a board of side `board_size` from a line of text. The
/// line must hold exactly two words, the row and then the column.
pub fn parse_position(s: &str, board_size: usize) -> (r: Result<Position, InputError>)
    ensures
        r == position_of(s@, board_size),
        r matches Ok(pos) ==> pos.0 < board_size && pos.1 < board_size,
{
    let chars = chars_of(s);
    let parts = split_words(&chars);
    if parts.len() != 2 {
        return Err(InputError::NotTwoParts);
    }
    let row = match part_from_chars(&parts[0], board_size) {
        Ok(row) => row,
        Err(e) => {
            return Err(e);
        },
    };
    match part_from_chars(&parts[1], board_size) {
        Ok(col) => Ok(Position(row, col)),
        Err(e) => Err(e),
    }
}

} // verus!
