//! Board coordinates and their two-character notation.

use vstd::prelude::*;

verus! {

/// A square of the board, or a point outside it.
///
/// Column 0 is file `a`, row 0 is rank `1`. Arithmetic on positions may leave
/// the board; `in_bounds` tells whether a position names a square.
#[derive(Clone, Copy, Debug, PartialEq, Eq, Hash, Structural)]
pub struct Position {
    pub column: i8,
    pub row: i8,
}

/// The letter of a file, `a` for column 0 up to `h` for column 7.
pub open spec fn file_char(column: int) -> char {
    if column == 0 {
        'a'
    } else if column == 1 {
        'b'
    } else if column == 2 {
        'c'
    } else if column == 3 {
        'd'
    } else if column == 4 {
        'e'
    } else if column == 5 {
        'f'
    } else if column == 6 {
        'g'
    } else {
        'h'
    }
}

/// The decimal digit for a value below ten.
pub open spec fn digit_char(digit: int) -> char {
    if digit == 0 {
        '0'
    } else if digit == 1 {
        '1'
    } else if digit == 2 {
        '2'
    } else if digit == 3 {
        '3'
    } else if digit == 4 {
        '4'
    } else if digit == 5 {
        '5'
    } else if digit == 6 {
        '6'
    } else if digit == 7 {
        '7'
    } else if digit == 8 {
        '8'
    } else {
        '9'
    }
}

/// The decimal digits of a natural number, most significant first.
pub open spec fn decimal_digits(n: nat) -> Seq<char>
    decreases n,
{
    if n < 10 {
        seq![digit_char(n as int)]
    } else {
        decimal_digits(n / 10).push(digit_char((n % 10) as int))
    }
}

/// The decimal text of an integer, with a leading `-` when negative.
pub open spec fn decimal_text(n: int) -> Seq<char> {
    if n < 0 {
        seq!['-'] + decimal_digits((-n) as nat)
    } else {
        decimal_digits(n as nat)
    }
}

/// The column that a file letter names, if it is one of `a` to `h`.
pub open spec fn parse_file(c: char) -> Option<i8> {
    if c == 'a' {
        Some(0i8)
    } else if c == 'b' {
        Some(1i8)
    } else if c == 'c' {
        Some(2i8)
    } else if c == 'd' {
        Some(3i8)
    } else if c == 'e' {
        Some(4i8)
    } else if c == 'f' {
        Some(5i8)
    } else if c == 'g' {
        Some(6i8)
    } else if c == 'h' {
        Some(7i8)
    } else {
        None
    }
}

/// The row that a rank digit names, if it is one of `1` to `8`.
pub open spec fn parse_rank(c: char) -> Option<i8> {
    if c == '1' {
        Some(0i8)
    } else if c == '2' {
        Some(1i8)
    } else if c == '3' {
        Some(2i8)
    } else if c == '4' {
        Some(3i8)
    } else if c == '5' {
        Some(4i8)
    } else if c == '6' {
        Some(5i8)
    } else if c == '7' {
        Some(6i8)
    } else if c == '8' {
        Some(7i8)
    } else {
        None
    }
}

/// What a text denotes as a position: a file letter followed by a rank
/// digit, and nothing else.
pub open spec fn parse_position(text: Seq<char>) -> Option<Position> {
    if text.len() == 2 && parse_file(text[0]).is_some() && parse_rank(text[1]).is_some() {
        Some(Position { column: parse_file(text[0]).unwrap(), row: parse_rank(text[1]).unwrap() })
    } else {
        None
    }
}

fn file_letter(column: i8) -> (c: char)
    requires
        0 <= column < 8,
    ensures
        c == file_char(column as int),
{
    match column {
        0 => 'a',
        1 => 'b',
        2 => 'c',
        3 => 'd',
        4 => 'e',
        5 => 'f',
        6 => 'g',
        _ => 'h',
    }
}

fn digit_letter(digit: u8) -> (c: char)
    requires
        digit < 10,
    ensures
        c == digit_char(digit as int),
{
    match digit {
        0 => '0',
        1 => '1',
        2 => '2',
        3 => '3',
        4 => '4',
        5 => '5',
        6 => '6',
        7 => '7',
        8 => '8',
        _ => '9',
    }
}

fn file_of(c: char) -> (column: Option<i8>)
    ensures
        column == parse_file(c),
{
    match c {
        'a' => Some(0),
        'b' => Some(1),
        'c' => Some(2),
        'd' => Some(3),
        'e' => Some(4),
        'f' => Some(5),
        'g' => Some(6),
        'h' => Some(7),
        _ => None,
    }
}

fn rank_of(c: char) -> (row: Option<i8>)
    ensures
        row == parse_rank(c),
{
    match c {
        '1' => Some(0),
        '2' => Some(1),
        '3' => Some(2),
        '4' => Some(3),
        '5' => Some(4),
        '6' => Some(5),
        '7' => Some(6),
        '8' => Some(7),
        _ => None,
    }
}

impl Position {
    /// Whether the position names one of the 64 squares.
    pub open spec fn in_bounds(self) -> bool {
        0 <= self.column < 8 && 0 <= self.row < 8
    }

    /// The position moved by the given offsets.
    pub open spec fn shifted(self, column_offset: int, row_offset: int) -> Position {
        Position {
            column: (self.column + column_offset) as i8,
            row: (self.row + row_offset) as i8,
        }
    }

    /// The text of the position: the file letter, then the rank number.
    pub open spec fn notation(self) -> Seq<char> {
        seq![file_char(self.column as int)] + decimal_text(self.row + 1)
    }

    /// Reads a position from its two-character notation, such as `e4`.
    pub fn from_notation(notation: &str) -> (result: Option<Position>)
        ensures
            result == parse_position(notation@),
    {
        if notation.unicode_len() != 2 {
            return None;
        }
        let column = file_of(notation.get_char(0));
        let row = rank_of(notation.get_char(1));
        match (column, row) {
            (Some(column), Some(row)) => Some(Position { column, row }),
            _ => None,
        }
    }

    /// The position moved by the given offsets; the result may lie outside
    /// the board.
    pub fn relative(&self, column_offset: i8, row_offset: i8) -> (result: Position)
        requires
            i8::MIN <= self.column + column_offset <= i8::MAX,
            i8::MIN <= self.row + row_offset <= i8::MAX,
        ensures
            result == self.shifted(column_offset as int, row_offset as int),
            result.column == self.column + column_offset,
            result.row == self.row + row_offset,
    {
        Position { column: self.column + column_offset, row: self.row + row_offset }
    }

    /// Writes the position in notation: the file letter followed by the rank
    /// number in decimal.
    pub fn format(&self) -> (text: String)
        requires
            0 <= self.column < 8,
            self.row < i8::MAX,
        ensures
            text@ == self.notation(),
    {
        let mut text = String::new();
        text.push(file_letter(self.column));
        let rank: i16 = self.row as i16 + 1;
        let magnitude: u8 = if rank < 0 {
            text.push('-');
            (-rank) as u8
        } else {
            rank as u8
        };
        proof {
            reveal_with_fuel(decimal_digits, 3);
        }
        if magnitude >= 100 {
            text.push(digit_letter(magnitude / 100));
        }
        if magnitude >= 10 {
            text.push(digit_letter((magnitude / 10) % 10));
        }
        text.push(digit_letter(magnitude % 10));
        assert(text@ =~= self.notation());
        text
    }
}

/// On the board a position's text is exactly two characters, and reading
/// the text gives the position back.
pub proof fn lemma_position_notation_round_trip(position: Position)
    requires
        position.in_bounds(),
    ensures
        position.notation().len() == 2,
        parse_position(position.notation()) == Some(position),
{
    reveal_with_fuel(decimal_digits, 2);
    assert(position.notation() =~= seq![
        file_char(position.column as int),
        digit_char(position.row + 1),
    ]);
}

/// A text that reads as a position is the notation of that position, which
/// is on the board.
pub proof fn lemma_parsed_position_is_written(text: Seq<char>)
    requires
        parse_position(text) is Some,
    ensures
        parse_position(text).unwrap().in_bounds(),
        parse_position(text).unwrap().notation() == text,
{
    reveal_with_fuel(decimal_digits, 2);
    let position = parse_position(text).unwrap();
    assert(position.notation() =~= text);
}

} // verus!
