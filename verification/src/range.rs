//! Line/column positions and ranges in the checked document.

use vstd::prelude::*;

verus! {

/// A position in the document, 1-based.
#[derive(Debug, Clone, Copy, PartialEq, Eq, Structural)]
pub struct Position {
    pub line: usize,
    pub column: usize,
}

/// A range in the document, ordered (`start <= end`).
#[derive(Debug, Clone, Copy, PartialEq, Eq, Structural)]
pub struct Range {
    pub start: Position,
    pub end: Position,
}

/// The character of a single decimal digit.
pub open spec fn digit_char(d: int) -> char {
    if d == 0 {
        '0'
    } else if d == 1 {
        '1'
    } else if d == 2 {
        '2'
    } else if d == 3 {
        '3'
    } else if d == 4 {
        '4'
    } else if d == 5 {
        '5'
    } else if d == 6 {
        '6'
    } else if d == 7 {
        '7'
    } else if d == 8 {
        '8'
    } else {
        '9'
    }
}

/// The decimal digits of `n`, most significant first.
pub open spec fn spec_digits(n: int) -> Seq<char>
    decreases n when n >= 0
{
    if n <= 9 {
        seq![digit_char(n)]
    } else {
        spec_digits(n / 10).push(digit_char(n % 10))
    }
}

/// The rendering of a single-line range: "line L, column A-B".
pub open spec fn spec_describe_one_line(line: int, col_start: int, col_end: int) -> Seq<char> {
    "line "@ + spec_digits(line) + ", column "@ + spec_digits(col_start) + "-"@ + spec_digits(
        col_end,
    )
}

/// The rendering of a multi-line range: "lines L1-L2, column A-B".
pub open spec fn spec_describe_multi_line(
    line_start: int,
    line_end: int,
    col_start: int,
    col_end: int,
) -> Seq<char> {
    "lines "@ + spec_digits(line_start) + "-"@ + spec_digits(line_end) + ", column "@ + spec_digits(
        col_start,
    ) + "-"@ + spec_digits(col_end)
}

/// The text of a single decimal digit.
fn digit_str(d: usize) -> (r: &'static str)
    requires
        d <= 9,
    ensures
        r@ == seq![digit_char(d as int)],
{
    proof {
        reveal_strlit("0");
        reveal_strlit("1");
        reveal_strlit("2");
        reveal_strlit("3");
        reveal_strlit("4");
        reveal_strlit("5");
        reveal_strlit("6");
        reveal_strlit("7");
        reveal_strlit("8");
        reveal_strlit("9");
    }
    let r: &'static str = if d == 0 {
        "0"
    } else if d == 1 {
        "1"
    } else if d == 2 {
        "2"
    } else if d == 3 {
        "3"
    } else if d == 4 {
        "4"
    } else if d == 5 {
        "5"
    } else if d == 6 {
        "6"
    } else if d == 7 {
        "7"
    } else if d == 8 {
        "8"
    } else {
        "9"
    };
    proof {
        assert(r@ =~= seq![digit_char(d as int)]);
    }
    r
}

/// Render a number in decimal.
pub fn usize_to_string(n: usize) -> (r: String)
    ensures
        r@ == spec_digits(n as int),
    decreases n,
{
    if n <= 9 {
        let mut s = String::new();
        s.append(digit_str(n));
        proof {
            assert(s@ =~= seq![digit_char(n as int)]);
        }
        s
    } else {
        let mut s = usize_to_string(n / 10);
        s.append(digit_str(n % 10));
        s
    }
}

impl Range {
    /// Render the range for display: the line, or line range, followed by
    /// the column range.
    pub fn describe(&self) -> (r: String)
        ensures
            self.start.line == self.end.line ==> r@ == spec_describe_one_line(
                self.start.line as int,
                self.start.column as int,
                self.end.column as int,
            ),
            self.start.line != self.end.line ==> r@ == spec_describe_multi_line(
                self.start.line as int,
                self.end.line as int,
                self.start.column as int,
                self.end.column as int,
            ),
    {
        if self.start.line == self.end.line {
            let mut s = String::from_str("line ");
            s.append(usize_to_string(self.start.line).as_str());
            s.append(", column ");
            s.append(usize_to_string(self.start.column).as_str());
            s.append("-");
            s.append(usize_to_string(self.end.column).as_str());
            s
        } else {
            let mut s = String::from_str("lines ");
            s.append(usize_to_string(self.start.line).as_str());
            s.append("-");
            s.append(usize_to_string(self.end.line).as_str());
            s.append(", column ");
            s.append(usize_to_string(self.start.column).as_str());
            s.append("-");
            s.append(usize_to_string(self.end.column).as_str());
            s
        }
    }
}

} // verus!
